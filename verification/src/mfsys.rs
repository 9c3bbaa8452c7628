//! The line-oriented site file format.
//!
//! A file holds a header with the size and the packed spin state, then one
//! row per site: index, position x, position y, an unused zero, moment x,
//! moment y, an unused zero, and the spin flag. All coordinates are the
//! library's fixed-point integers, written in decimal. A down spin is stored
//! with the *inverted* moment, so a loader must negate the moment of every
//! row whose flag is set to recover the "up" moment.
//!
//! The whole byte layout is pinned by the spec function [`render_mfsys`]:
//! saving produces exactly that rendering of the sites and the spin state,
//! and a successful load yields a system whose rendering is exactly the
//! input — the loader accepts the canonical form the saver writes, so
//! saving, loading and saving again is byte-identical by contract.
//!
//! Reading and writing files is the caller's business; the functions here
//! turn a system into bytes and bytes back into a system.
use vstd::prelude::*;

use crate::bits::{bits_get, bits_of, bits_push, bits_repeat};
use vstd::string::StringSliceAdditionalSpecFns;
use crate::element::{Element, COORD_LIMIT};
use crate::matrix::Matrix;
use crate::system::System;

verus! {

/// Why a site file was rejected.
#[derive(Clone, Copy, Debug, PartialEq, Eq, Structural)]
pub enum MfsysError {
    /// A structural fault: no parts section, a short row, a bad number, a
    /// value out of the library's fixed-point range, or a file that is not
    /// the canonical rendering of what its rows describe.
    Malformed,
    /// The file's sites do not match the supplied pair-energy matrix.
    SizeMismatch,
}

/// The decimal digits of `v`, most significant first.
pub open spec fn dec_u64(v: nat) -> Seq<u8>
    decreases v,
{
    if v < 10 {
        seq![(48 + v) as u8]
    } else {
        dec_u64(v / 10).push((48 + v % 10) as u8)
    }
}

/// The decimal rendering of `v`, with a leading minus when negative.
pub open spec fn dec_i64(v: int) -> Seq<u8> {
    if v < 0 {
        seq![45u8] + dec_u64((-v) as nat)
    } else {
        dec_u64(v as nat)
    }
}

/// The first `k` spins as `0`/`1` bytes.
pub open spec fn state_digits(bs: Seq<bool>, k: nat) -> Seq<u8>
    decreases k,
{
    if k == 0 {
        Seq::empty()
    } else {
        state_digits(bs, (k - 1) as nat) + spin_flag(bs[k - 1])
    }
}

/// The flag column of one row.
pub open spec fn spin_flag(b: bool) -> Seq<u8> {
    if b {
        "1".spec_bytes()
    } else {
        "0".spec_bytes()
    }
}

/// One `[parts]` row: index, position, a zero column, the moment with the
/// spin's sign applied (a down spin stores the inverted moment), another
/// zero column, and the flag.
pub open spec fn render_row(id: nat, e: Element, spin: bool) -> Seq<u8> {
    let f: int = if spin {
        -1
    } else {
        1
    };
    dec_u64(id) + "\t".spec_bytes() + dec_i64(e.x as int) + "\t".spec_bytes() + dec_i64(e.y as int)
        + "\t0\t".spec_bytes() + dec_i64(f * e.mx) + "\t".spec_bytes() + dec_i64(f * e.my)
        + "\t0\t".spec_bytes() + spin_flag(spin) + "\n".spec_bytes()
}

/// The first `k` rows, in site order.
pub open spec fn render_rows(es: Seq<Element>, bs: Seq<bool>, k: nat) -> Seq<u8>
    decreases k,
{
    if k == 0 {
        Seq::empty()
    } else {
        render_rows(es, bs, (k - 1) as nat) + render_row((k - 1) as nat, es[k - 1], bs[k - 1])
    }
}

/// The whole canonical file: header, size, packed state, and one row per
/// site. A pure function of the sites and the spin state alone.
pub open spec fn render_mfsys(es: Seq<Element>, bs: Seq<bool>) -> Seq<u8> {
    "[header]\ndimensions=2\nsize=".spec_bytes() + dec_u64(es.len()) + "\nstate=".spec_bytes()
        + state_digits(bs, bs.len()) + "\n[parts]\n".spec_bytes() + render_rows(es, bs, es.len())
}

/// Appends the bytes of a literal.
fn push_str(out: &mut Vec<u8>, s: &str)
    ensures
        final(out)@ == old(out)@ + s.spec_bytes(),
{
    let b = s.as_bytes();
    let n = b.len();
    let mut i: usize = 0;
    while i < n
        invariant
            i <= n,
            n == b@.len(),
            b@ == s.spec_bytes(),
            out@ == old(out)@ + b@.subrange(0, i as int),
        decreases n - i,
    {
        out.push(b[i]);
        proof {
            assert(b@.subrange(0, i + 1) =~= b@.subrange(0, i as int).push(b@[i as int]));
            assert(out@ =~= old(out)@ + b@.subrange(0, i + 1));
        }
        i += 1;
    }
    proof {
        assert(b@.subrange(0, n as int) =~= b@);
    }
}

/// Appends the decimal digits of `v`.
fn push_u64(out: &mut Vec<u8>, v: u64)
    ensures
        final(out)@ == old(out)@ + dec_u64(v as nat),
    decreases v,
{
    if v >= 10 {
        push_u64(out, v / 10);
    }
    out.push(48u8 + (v % 10) as u8);
    proof {
        if v < 10 {
            assert(old(out)@ + dec_u64(v as nat) =~= out@);
        } else {
            assert(old(out)@ + dec_u64(v as nat) =~= out@);
        }
    }
}

/// Appends a signed decimal rendering of `v`.
fn push_i64(out: &mut Vec<u8>, v: i64)
    requires
        v > i64::MIN,
    ensures
        final(out)@ == old(out)@ + dec_i64(v as int),
{
    if v < 0 {
        out.push(45u8);
        let ghost mid = out@;
        push_u64(out, (-v) as u64);
        proof {
            assert(out@ =~= old(out)@ + dec_i64(v as int));
        }
    } else {
        push_u64(out, v as u64);
    }
}

/// Byte-for-byte equality of two vectors.
fn bytes_equal(a: &Vec<u8>, b: &Vec<u8>) -> (r: bool)
    ensures
        r == (a@ =~= b@),
{
    if a.len() != b.len() {
        proof {
            assert(!(a@ =~= b@));
        }
        return false;
    }
    let n = a.len();
    let mut i: usize = 0;
    while i < n
        invariant
            i <= n,
            n == a@.len(),
            n == b@.len(),
            forall|t: int| 0 <= t < i ==> a@[t] == b@[t],
        decreases n - i,
    {
        if a[i] != b[i] {
            proof {
                assert(!(a@ =~= b@));
            }
            return false;
        }
        i += 1;
    }
    proof {
        assert(a@ =~= b@);
    }
    true
}

/// Appends one canonical `[parts]` row.
#[verifier::rlimit(100)]
fn push_row(out: &mut Vec<u8>, id: usize, e: Element, spin: bool)
    requires
        e.wf(),
    ensures
        final(out)@ == old(out)@ + render_row(id as nat, e, spin),
{
    push_u64(out, id as u64);
    push_str(out, "\t");
    push_i64(out, e.x);
    push_str(out, "\t");
    push_i64(out, e.y);
    push_str(out, "\t0\t");
    push_i64(out, if spin { -e.mx } else { e.mx });
    push_str(out, "\t");
    push_i64(out, if spin { -e.my } else { e.my });
    push_str(out, "\t0\t");
    if spin {
        push_str(out, "1");
    } else {
        push_str(out, "0");
    }
    push_str(out, "\n");
    proof {
        let f: int = if spin {
            -1
        } else {
            1
        };
        if spin {
            assert(-1 * (e.mx as int) == -(e.mx as int)) by (nonlinear_arith);
            assert(-1 * (e.my as int) == -(e.my as int)) by (nonlinear_arith);
        } else {
            assert(1 * (e.mx as int) == e.mx as int) by (nonlinear_arith);
            assert(1 * (e.my as int) == e.my as int) by (nonlinear_arith);
        }
        assert(out@ =~= old(out)@ + render_row(id as nat, e, spin));
    }
}

impl System {
    /// Renders the system in the site file format: exactly
    /// `render_mfsys(self.elements@, self.bits())`, a deterministic pure
    /// function of the sites and the spin state, with the moment columns
    /// sign-flipped for down spins.
    #[verifier::rlimit(100)]
    pub fn save_mfsys(&self) -> (r: Vec<u8>)
        requires
            self.wf(),
        ensures
            r@ == render_mfsys(self.elements@, self.bits()),
    {
        let n: usize = self.size();
        let mut out: Vec<u8> = Vec::new();
        push_str(&mut out, "[header]\ndimensions=2\nsize=");
        push_u64(&mut out, n as u64);
        push_str(&mut out, "\nstate=");
        let ghost pre_state = out@;
        let mut i: usize = 0;
        while i < n
            invariant
                i <= n,
                n == self.n(),
                self.wf(),
                out@ == pre_state + state_digits(self.bits(), i as nat),
            decreases n - i,
        {
            let b = bits_get(&self.system_state, i);
            if b {
                push_str(&mut out, "1");
            } else {
                push_str(&mut out, "0");
            }
            proof {
                assert(state_digits(self.bits(), (i + 1) as nat) =~= state_digits(
                    self.bits(),
                    i as nat,
                ) + spin_flag(self.bits()[i as int]));
                assert(out@ =~= pre_state + state_digits(self.bits(), (i + 1) as nat));
            }
            i += 1;
        }
        push_str(&mut out, "\n[parts]\n");
        let ghost pre_rows = out@;
        let mut i: usize = 0;
        while i < n
            invariant
                i <= n,
                n == self.n(),
                self.wf(),
                out@ == pre_rows + render_rows(self.elements@, self.bits(), i as nat),
            decreases n - i,
        {
            let e = self.elements[i];
            let spin = bits_get(&self.system_state, i);
            push_row(&mut out, i, e, spin);
            proof {
                assert(render_rows(self.elements@, self.bits(), (i + 1) as nat) =~= render_rows(
                    self.elements@,
                    self.bits(),
                    i as nat,
                ) + render_row(i as nat, self.elements@[i as int], self.bits()[i as int]));
                assert(out@ =~= pre_rows + render_rows(self.elements@, self.bits(), (i + 1) as nat));
            }
            i += 1;
        }
        proof {
            assert(out@ =~= render_mfsys(self.elements@, self.bits()));
        }
        out
    }

    /// Parses a site file and builds a system over the supplied pair-energy
    /// matrix, restoring the saved spin state. The loader accepts exactly
    /// the canonical form `save_mfsys` writes: after parsing the rows it
    /// re-renders them and rejects any file that differs, so every `Ok`
    /// system renders back to the very input bytes — which makes a second
    /// save byte-identical to the file that was loaded.
    pub fn load_mfsys(bytes: &Vec<u8>, energy_matrix: Matrix) -> (r: Result<System, MfsysError>)
        requires
            energy_matrix.wf(),
        ensures
            match r {
                Result::Ok(s) => {
                    &&& s.wf()
                    &&& s.n() == energy_matrix.spec_size()
                    &&& s.mat().size == energy_matrix.size
                    &&& s.mat().memory@ == energy_matrix.memory@
                    &&& bytes@ == render_mfsys(s.elements@, s.bits())
                },
                Result::Err(_) => true,
            },
    {
        let lines = split_lines(bytes);
        let mut in_parts = false;
        let mut elements: Vec<Element> = Vec::new();
        let mut state = bits_repeat(false, 0);
        let nl = lines.len();
        let mut li: usize = 0;
        while li < nl
            invariant
                li <= nl,
                nl == lines@.len(),
                elements@.len() == bits_of(state).len(),
                elements@.len() <= crate::MAX_SITES,
                forall|t: int| 0 <= t < elements@.len() ==> (#[trigger] elements@[t]).wf(),
            decreases nl - li,
        {
            let line = &lines[li];
            if !in_parts {
                if line_is_parts(line) {
                    in_parts = true;
                }
            } else {
                let fields = split_whitespace(line);
                if fields.len() >= 8 {
                    if elements.len() == crate::MAX_SITES {
                        return Err(MfsysError::Malformed);
                    }
                    let x = match parse_i64(&fields[1]) {
                        Option::Some(v) => v,
                        Option::None => { return Err(MfsysError::Malformed) },
                    };
                    let y = match parse_i64(&fields[2]) {
                        Option::Some(v) => v,
                        Option::None => { return Err(MfsysError::Malformed) },
                    };
                    let mx = match parse_i64(&fields[4]) {
                        Option::Some(v) => v,
                        Option::None => { return Err(MfsysError::Malformed) },
                    };
                    let my = match parse_i64(&fields[5]) {
                        Option::Some(v) => v,
                        Option::None => { return Err(MfsysError::Malformed) },
                    };
                    let flag = &fields[7];
                    let spin = if flag.len() == 1 && flag[0] == 49u8 {
                        true
                    } else if flag.len() == 1 && flag[0] == 48u8 {
                        false
                    } else {
                        return Err(MfsysError::Malformed);
                    };
                    if !(-COORD_LIMIT <= mx && mx <= COORD_LIMIT && -COORD_LIMIT <= my && my
                        <= COORD_LIMIT) {
                        return Err(MfsysError::Malformed);
                    }
                    // A stored down spin carries the inverted moment.
                    let mx = if spin {
                        -mx
                    } else {
                        mx
                    };
                    let my = if spin {
                        -my
                    } else {
                        my
                    };
                    if !(-COORD_LIMIT <= x && x <= COORD_LIMIT && -COORD_LIMIT <= y && y
                        <= COORD_LIMIT) {
                        return Err(MfsysError::Malformed);
                    }
                    elements.push(Element { x, y, mx, my });
                    bits_push(&mut state, spin);
                }
            }
            li += 1;
        }
        if !in_parts {
            return Err(MfsysError::Malformed);
        }
        if elements.len() != energy_matrix.size() {
            return Err(MfsysError::SizeMismatch);
        }
        let mut system = System::new(elements, energy_matrix);
        system.set_system_state(state);
        // Canonical-form check: only a file that is exactly the rendering of
        // what its rows describe is accepted.
        let rendered = system.save_mfsys();
        if bytes_equal(&rendered, bytes) {
            proof {
                assert(bytes@ =~= render_mfsys(system.elements@, system.bits()));
            }
            Ok(system)
        } else {
            Err(MfsysError::Malformed)
        }
    }
}

/// Splits on newline bytes; the terminator is consumed.
fn split_lines(bytes: &Vec<u8>) -> (r: Vec<Vec<u8>>)
{
    let mut r: Vec<Vec<u8>> = Vec::new();
    let mut cur: Vec<u8> = Vec::new();
    let n = bytes.len();
    let mut i: usize = 0;
    while i < n
        invariant
            i <= n,
            n == bytes@.len(),
        decreases n - i,
    {
        let b = bytes[i];
        if b == 10u8 {
            r.push(cur);
            cur = Vec::new();
        } else if b != 13u8 {
            cur.push(b);
        }
        i += 1;
    }
    if cur.len() > 0 {
        r.push(cur);
    }
    r
}

/// True iff the line reads `[parts]`.
fn line_is_parts(line: &Vec<u8>) -> (r: bool)
{
    let tag = "[parts]".as_bytes();
    if line.len() != tag.len() {
        return false;
    }
    let n = line.len();
    let mut i: usize = 0;
    while i < n
        invariant
            i <= n,
            n == line@.len(),
            n == tag@.len(),
        decreases n - i,
    {
        if line[i] != tag[i] {
            return false;
        }
        i += 1;
    }
    true
}

/// Splits a line into runs of non-blank bytes.
fn split_whitespace(line: &Vec<u8>) -> (r: Vec<Vec<u8>>)
{
    let mut r: Vec<Vec<u8>> = Vec::new();
    let mut cur: Vec<u8> = Vec::new();
    let n = line.len();
    let mut i: usize = 0;
    while i < n
        invariant
            i <= n,
            n == line@.len(),
        decreases n - i,
    {
        let b = line[i];
        if b == 32u8 || b == 9u8 {
            if cur.len() > 0 {
                r.push(cur);
                cur = Vec::new();
            }
        } else {
            cur.push(b);
        }
        i += 1;
    }
    if cur.len() > 0 {
        r.push(cur);
    }
    r
}

/// Parses an optionally signed decimal integer; rejects anything else, the
/// empty string, and values outside `i64`.
fn parse_i64(token: &Vec<u8>) -> (r: Option<i64>)
{
    let n = token.len();
    if n == 0 {
        return None;
    }
    let negative = token[0] == 45u8;
    let mut i: usize = if negative {
        1
    } else {
        0
    };
    if i == n {
        return None;
    }
    let mut acc: i64 = 0;
    while i < n
        invariant
            i <= n,
            n == token@.len(),
            0 <= acc,
        decreases n - i,
    {
        let b = token[i];
        if b < 48u8 || b > 57u8 {
            return None;
        }
        let d = (b - 48u8) as i64;
        if acc > (i64::MAX - d) / 10 {
            return None;
        }
        acc = acc * 10 + d;
        i += 1;
    }
    if negative {
        Some(-acc)
    } else {
        Some(acc)
    }
}

} // verus!
