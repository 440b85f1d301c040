//! The two-pass assembler: a line-oriented textual listing in, bytecode out.
//!
//! Each statement — statements are separated by newlines and semicolons —
//! may open with a `label:` definition, followed by a mnemonic and, where
//! that mnemonic takes an operand, either a signed decimal literal or a
//! `@label` reference. A first pass encodes instructions, records label
//! definitions at the current byte offset, and reserves four zero bytes at
//! each label use; a second pass overwrites every reserved slot with the
//! relative displacement `target offset - use offset`, little-endian.
//!
//! The format is ASCII: bytes are compared, and the whitespace that
//! separates tokens is the ASCII kind.

use crate::inst::{bytes_eq, Inst};
use crate::int32::{append_i32_le, spec_i32_to_le_bytes, store_i32_le};
use vstd::prelude::*;
use vstd::slice::{slice_subrange, slice_to_vec};
use vstd::string::StringSliceAdditionalSpecFns;

verus! {

/// The longest accepted source text, in bytes. Displacements and label
/// offsets travel as signed 32-bit values, so the program — at most five
/// bytes per statement — must stay well under `i32::MAX` bytes.
pub const MAX_SOURCE_LEN: usize = 0x0fff_ffff;

/// An assembly-time failure. Each carries the offending token or name.
#[derive(Debug, PartialEq, Eq)]
pub enum AsmError {
    /// A label was defined a second time; holds the label name.
    DuplicateLabel(Vec<u8>),
    /// A mnemonic matched no instruction; holds the token.
    UnknownInstruction(Vec<u8>),
    /// The instruction takes an operand and the statement ended without
    /// one; holds the mnemonic.
    MissingOperand(Vec<u8>),
    /// The operand was neither a label reference nor a valid signed 32-bit
    /// decimal literal; holds the token.
    InvalidOperand(Vec<u8>),
    /// A referenced label was never defined; holds the label name.
    UndefinedLabel(Vec<u8>),
}

/// The mathematical image of an [`AsmError`].
pub enum AsmErrorSpec {
    DuplicateLabel(Seq<u8>),
    UnknownInstruction(Seq<u8>),
    MissingOperand(Seq<u8>),
    InvalidOperand(Seq<u8>),
    UndefinedLabel(Seq<u8>),
}

impl View for AsmError {
    type V = AsmErrorSpec;

    open spec fn view(&self) -> AsmErrorSpec {
        match self {
            AsmError::DuplicateLabel(n) => AsmErrorSpec::DuplicateLabel(n@),
            AsmError::UnknownInstruction(n) => AsmErrorSpec::UnknownInstruction(n@),
            AsmError::MissingOperand(n) => AsmErrorSpec::MissingOperand(n@),
            AsmError::InvalidOperand(n) => AsmErrorSpec::InvalidOperand(n@),
            AsmError::UndefinedLabel(n) => AsmErrorSpec::UndefinedLabel(n@),
        }
    }
}

/// A statement separator: newline or `;`.
pub open spec fn is_sep(b: u8) -> bool {
    b == 10 || b == 59
}

/// ASCII whitespace as it may occur inside a statement.
pub open spec fn is_space(b: u8) -> bool {
    b == 32 || b == 9 || b == 11 || b == 12 || b == 13
}

/// The first separator at or after `i`, or the end of the source.
pub open spec fn spec_stmt_end(src: Seq<u8>, i: int) -> int
    recommends
        0 <= i <= src.len(),
    decreases src.len() - i,
{
    if i >= src.len() {
        src.len() as int
    } else if is_sep(src[i]) {
        i
    } else {
        spec_stmt_end(src, i + 1)
    }
}

/// The first non-whitespace position in `[i, end)`, or `end`.
pub open spec fn spec_skip_spaces(src: Seq<u8>, i: int, end: int) -> int
    recommends
        0 <= i <= end <= src.len(),
    decreases end - i,
{
    if i >= end {
        end
    } else if is_space(src[i]) {
        spec_skip_spaces(src, i + 1, end)
    } else {
        i
    }
}

/// The first whitespace position in `[i, end)`, or `end`: the end of the
/// token starting at `i`.
pub open spec fn spec_token_end(src: Seq<u8>, i: int, end: int) -> int
    recommends
        0 <= i <= end <= src.len(),
    decreases end - i,
{
    if i >= end {
        end
    } else if is_space(src[i]) {
        i
    } else {
        spec_token_end(src, i + 1, end)
    }
}

/// Every byte of `t` is an ASCII decimal digit.
pub open spec fn digits_only(t: Seq<u8>) -> bool {
    forall|i: int| 0 <= i < t.len() ==> 48 <= #[trigger] t[i] <= 57
}

/// The number the digit string `t` denotes.
pub open spec fn digits_value(t: Seq<u8>) -> int
    recommends
        digits_only(t),
    decreases t.len(),
{
    if t.len() == 0 {
        0
    } else {
        digits_value(t.drop_last()) * 10 + (t.last() - 48)
    }
}

/// What `t` parses to as a signed 32-bit decimal literal: an optional
/// `+` or `-` sign, one or more digits, and a value within `i32` range —
/// anything else is `None`.
pub open spec fn spec_parse_i32(t: Seq<u8>) -> Option<i32> {
    let signed = t.len() > 0 && (t[0] == 43 || t[0] == 45);
    let digits = if signed {
        t.drop_first()
    } else {
        t
    };
    if digits.len() > 0 && digits_only(digits) {
        let v = if t.len() > 0 && t[0] == 45 {
            -digits_value(digits)
        } else {
            digits_value(digits)
        };
        if i32::MIN <= v <= i32::MAX {
            Some(v as i32)
        } else {
            None
        }
    } else {
        None
    }
}

/// The first pass's running state: the bytes encoded so far, the labels
/// defined so far with their offsets, and the label uses recorded so far
/// with the offsets of their reserved operand slots.
pub struct AsmState {
    pub code: Seq<u8>,
    pub labels: Seq<(Seq<u8>, int)>,
    pub uses: Seq<(Seq<u8>, int)>,
}

/// The offset of the first definition of `name`, if any.
pub open spec fn spec_find_label(labels: Seq<(Seq<u8>, int)>, name: Seq<u8>) -> Option<int>
    decreases labels.len(),
{
    if labels.len() == 0 {
        None
    } else if labels[0].0 == name {
        Some(labels[0].1)
    } else {
        spec_find_label(labels.drop_first(), name)
    }
}

/// One instruction with its optional operand, the mnemonic token starting
/// at `a` within the statement `[a, end)`.
pub open spec fn spec_instruction(src: Seq<u8>, a: int, end: int, st: AsmState) -> Result<
    AsmState,
    AsmErrorSpec,
>
    recommends
        0 <= a < end <= src.len(),
{
    let b = spec_token_end(src, a, end);
    let mn = src.subrange(a, b);
    match Inst::spec_lookup(mn) {
        None => Err(AsmErrorSpec::UnknownInstruction(mn)),
        Some(inst) => {
            let st1 = AsmState { code: st.code.push(inst.spec_opcode()), ..st };
            if inst.spec_operands() == 0 {
                Ok(st1)
            } else {
                let c = spec_skip_spaces(src, b, end);
                if c >= end {
                    Err(AsmErrorSpec::MissingOperand(mn))
                } else {
                    let d = spec_token_end(src, c, end);
                    let op = src.subrange(c, d);
                    if op[0] == 64 {
                        Ok(
                            AsmState {
                                code: st1.code + seq![0u8, 0u8, 0u8, 0u8],
                                uses: st1.uses.push((op.drop_first(), st1.code.len() as int)),
                                ..st1
                            },
                        )
                    } else {
                        match spec_parse_i32(op) {
                            Some(v) => Ok(
                                AsmState { code: st1.code + spec_i32_to_le_bytes(v), ..st1 },
                            ),
                            None => Err(AsmErrorSpec::InvalidOperand(op)),
                        }
                    }
                }
            }
        },
    }
}

/// One statement `[i, end)`: an optional label definition, an optional
/// instruction; a blank statement changes nothing.
pub open spec fn spec_statement(src: Seq<u8>, i: int, end: int, st: AsmState) -> Result<
    AsmState,
    AsmErrorSpec,
>
    recommends
        0 <= i <= end <= src.len(),
{
    let a = spec_skip_spaces(src, i, end);
    if a >= end {
        Ok(st)
    } else {
        let b = spec_token_end(src, a, end);
        let tok = src.subrange(a, b);
        if tok.last() == 58 {
            let name = tok.drop_last();
            if spec_find_label(st.labels, name) is Some {
                Err(AsmErrorSpec::DuplicateLabel(name))
            } else {
                let st1 = AsmState {
                    labels: st.labels.push((name, st.code.len() as int)),
                    ..st
                };
                let a2 = spec_skip_spaces(src, b, end);
                if a2 >= end {
                    Ok(st1)
                } else {
                    spec_instruction(src, a2, end, st1)
                }
            }
        } else {
            spec_instruction(src, a, end, st)
        }
    }
}

/// A statement never ends before it begins, nor past the source.
pub proof fn lemma_stmt_end_bounds(src: Seq<u8>, i: int)
    requires
        i <= src.len(),
    ensures
        i <= spec_stmt_end(src, i) <= src.len(),
    decreases src.len() - i,
{
    if i < src.len() && !is_sep(src[i]) {
        lemma_stmt_end_bounds(src, i + 1);
    }
}

/// The first pass over every statement from position `i` on.
pub open spec fn spec_pass1(src: Seq<u8>, i: int, st: AsmState) -> Result<AsmState, AsmErrorSpec>
    recommends
        0 <= i,
    decreases src.len() + 1 - i,
    via spec_pass1_decreases
{
    if i > src.len() {
        Ok(st)
    } else {
        let e = spec_stmt_end(src, i);
        match spec_statement(src, i, e, st) {
            Err(er) => Err(er),
            Ok(st1) => spec_pass1(src, e + 1, st1),
        }
    }
}

#[via_fn]
proof fn spec_pass1_decreases(src: Seq<u8>, i: int, st: AsmState) {
    if i <= src.len() {
        lemma_stmt_end_bounds(src, i);
    }
}

/// `code` with the four bytes at `at` overwritten by `v`, little-endian.
pub open spec fn spec_patch(code: Seq<u8>, at: int, v: i32) -> Seq<u8>
    recommends
        0 <= at && at + 4 <= code.len(),
{
    code.subrange(0, at) + spec_i32_to_le_bytes(v) + code.skip(at + 4)
}

/// The second pass: resolve every recorded use from the `k`-th on,
/// patching in the relative displacement `target - use`.
pub open spec fn spec_pass2(
    labels: Seq<(Seq<u8>, int)>,
    uses: Seq<(Seq<u8>, int)>,
    code: Seq<u8>,
    k: int,
) -> Result<Seq<u8>, AsmErrorSpec>
    recommends
        0 <= k,
    decreases uses.len() - k,
{
    if k >= uses.len() {
        Ok(code)
    } else {
        match spec_find_label(labels, uses[k].0) {
            None => Err(AsmErrorSpec::UndefinedLabel(uses[k].0)),
            Some(target) => spec_pass2(
                labels,
                uses,
                spec_patch(code, uses[k].1, (target - uses[k].1) as i32),
                k + 1,
            ),
        }
    }
}

/// What assembling `src` yields: the bytecode, or the first failure.
pub open spec fn spec_assemble(src: Seq<u8>) -> Result<Seq<u8>, AsmErrorSpec> {
    let init = AsmState { code: Seq::empty(), labels: Seq::empty(), uses: Seq::empty() };
    match spec_pass1(src, 0, init) {
        Err(er) => Err(er),
        Ok(st) => spec_pass2(st.labels, st.uses, st.code, 0),
    }
}

/// The label and use tables as the spec sees the exec ones.
pub open spec fn pairs_view(v: Seq<(Vec<u8>, usize)>) -> Seq<(Seq<u8>, int)> {
    v.map_values(|p: (Vec<u8>, usize)| (p.0@, p.1 as int))
}

fn stmt_end(src: &[u8], i: usize) -> (r: usize)
    requires
        i <= src@.len(),
    ensures
        r == spec_stmt_end(src@, i as int),
        i <= r <= src@.len(),
{
    let n = src.len();
    let mut j = i;
    while j < n
        invariant
            i <= j <= n,
            n == src@.len(),
            spec_stmt_end(src@, i as int) == spec_stmt_end(src@, j as int),
        decreases n - j,
    {
        let b = src[j];
        if b == 10 || b == 59 {
            return j;
        }
        j = j + 1;
    }
    j
}

fn skip_spaces(src: &[u8], i: usize, end: usize) -> (r: usize)
    requires
        i <= end <= src@.len(),
    ensures
        r == spec_skip_spaces(src@, i as int, end as int),
        i <= r <= end,
        r < end ==> !is_space(src@[r as int]),
{
    let mut j = i;
    while j < end
        invariant
            i <= j <= end,
            end <= src@.len(),
            spec_skip_spaces(src@, i as int, end as int) == spec_skip_spaces(
                src@,
                j as int,
                end as int,
            ),
        decreases end - j,
    {
        let b = src[j];
        if !(b == 32 || b == 9 || b == 11 || b == 12 || b == 13) {
            return j;
        }
        j = j + 1;
    }
    j
}

fn token_end(src: &[u8], i: usize, end: usize) -> (r: usize)
    requires
        i <= end <= src@.len(),
    ensures
        r == spec_token_end(src@, i as int, end as int),
        i <= r <= end,
        (i < end && !is_space(src@[i as int])) ==> r > i,
{
    let mut j = i;
    while j < end
        invariant
            i <= j <= end,
            end <= src@.len(),
            spec_token_end(src@, i as int, end as int) == spec_token_end(
                src@,
                j as int,
                end as int,
            ),
        decreases end - j,
    {
        let b = src[j];
        if b == 32 || b == 9 || b == 11 || b == 12 || b == 13 {
            return j;
        }
        j = j + 1;
    }
    j
}

proof fn lemma_digits_value_nonneg(t: Seq<u8>)
    requires
        digits_only(t),
    ensures
        digits_value(t) >= 0,
    decreases t.len(),
{
    if t.len() > 0 {
        assert(digits_only(t.drop_last()));
        lemma_digits_value_nonneg(t.drop_last());
    }
}

proof fn lemma_digits_value_grows(t: Seq<u8>, k: int)
    requires
        digits_only(t),
        0 <= k <= t.len(),
    ensures
        digits_value(t.take(k)) <= digits_value(t),
    decreases t.len() - k,
{
    if k < t.len() {
        assert(digits_only(t.take(k)));
        lemma_digits_value_nonneg(t.take(k));
        assert(t.take(k + 1).drop_last() =~= t.take(k));
        assert(digits_value(t.take(k + 1)) == digits_value(t.take(k)) * 10 + (t[k] - 48));
        lemma_digits_value_grows(t, k + 1);
    } else {
        assert(t.take(k) =~= t);
    }
}

/// Parse a signed 32-bit decimal literal, exactly as [`spec_parse_i32`]
/// defines it.
fn parse_i32(t: &[u8]) -> (r: Option<i32>)
    ensures
        r == spec_parse_i32(t@),
{
    let n = t.len();
    if n == 0 {
        return None;
    }
    let first = t[0];
    let start: usize = if first == 45 || first == 43 {
        1
    } else {
        0
    };
    if start >= n {
        return None;
    }
    let ghost digits: Seq<u8> = if start == 1 {
        t@.drop_first()
    } else {
        t@
    };
    proof {
        assert(digits =~= t@.subrange(start as int, n as int));
    }
    let mut acc: i64 = 0;
    let mut j = start;
    while j < n
        invariant
            start <= j <= n,
            0 < n == t@.len(),
            start == 0 || start == 1,
            (start == 1) <==> (t@[0] == 45 || t@[0] == 43),
            digits == t@.subrange(start as int, n as int),
            forall|k: int| start <= k < j ==> 48 <= #[trigger] t@[k] <= 57,
            acc == digits_value(t@.subrange(start as int, j as int)),
            0 <= acc <= 0x8000_0000,
        decreases n - j,
    {
        let ch = t[j];
        if ch < 48 || ch > 57 {
            proof {
                assert(digits[j - start] == t@[j as int]);
                assert(!digits_only(digits));
            }
            return None;
        }
        acc = acc * 10 + ((ch - 48) as i64);
        j = j + 1;
        proof {
            assert(t@.subrange(start as int, j as int).drop_last() =~= t@.subrange(
                start as int,
                j as int - 1,
            ));
            assert(t@.subrange(start as int, j as int).last() == t@[j - 1]);
        }
        if acc > 0x8000_0000 {
            proof {
                if start == 0 {
                    assert(digits =~= t@);
                } else {
                    assert(digits =~= t@.drop_first());
                }
                if digits_only(digits) {
                    assert(digits.take(j - start) =~= t@.subrange(start as int, j as int));
                    lemma_digits_value_grows(digits, j - start);
                    assert(digits_value(digits) >= acc);
                }
            }
            return None;
        }
    }
    proof {
        assert(t@.subrange(start as int, n as int) =~= digits);
    }
    if first == 45 {
        proof {
            assert(digits_only(digits));
        }
        Some((-acc) as i32)
    } else {
        if acc > 0x7fff_ffff {
            return None;
        }
        Some(acc as i32)
    }
}

/// Look `name` up among the labels defined so far.
fn find_label(labels: &Vec<(Vec<u8>, usize)>, name: &[u8]) -> (r: Option<usize>)
    ensures
        match r {
            Some(off) => spec_find_label(pairs_view(labels@), name@) == Some(off as int),
            None => spec_find_label(pairs_view(labels@), name@) is None,
        },
{
    let n = labels.len();
    let mut j: usize = 0;
    proof {
        assert(pairs_view(labels@).skip(0) =~= pairs_view(labels@));
    }
    while j < n
        invariant
            0 <= j <= n,
            n == labels@.len(),
            spec_find_label(pairs_view(labels@), name@) == spec_find_label(
                pairs_view(labels@).skip(j as int),
                name@,
            ),
        decreases n - j,
    {
        let entry = &labels[j];
        proof {
            assert(pairs_view(labels@).skip(j as int).drop_first() =~= pairs_view(labels@).skip(
                j as int + 1,
            ));
            assert(pairs_view(labels@).skip(j as int)[0] == (labels@[j as int].0@, labels@[
                j as int
            ].1 as int));
        }
        if bytes_eq(entry.0.as_slice(), name) {
            return Some(entry.1);
        }
        j = j + 1;
    }
    None
}

/// Every offset a label lookup can yield lies among the recorded ones.
pub proof fn lemma_find_label_bound(labels: Seq<(Seq<u8>, int)>, name: Seq<u8>, bound: int)
    requires
        forall|j: int| 0 <= j < labels.len() ==> 0 <= #[trigger] labels[j].1 <= bound,
    ensures
        match spec_find_label(labels, name) {
            Some(v) => 0 <= v <= bound,
            None => true,
        },
    decreases labels.len(),
{
    if labels.len() > 0 && !(labels[0].0 == name) {
        assert forall|j: int| 0 <= j < labels.drop_first().len() implies 0 <= #[trigger] labels.drop_first()[j].1
            <= bound by {
            assert(labels.drop_first()[j] == labels[j + 1]);
        }
        lemma_find_label_bound(labels.drop_first(), name, bound);
    }
}

/// Process the statement `[i, e)`: encode into `code`, record into
/// `labels` and `uses`, exactly as [`spec_statement`] describes. On an
/// error the buffers are abandoned by the caller.
fn process_statement(
    src: &[u8],
    i: usize,
    e: usize,
    code: &mut Vec<u8>,
    labels: &mut Vec<(Vec<u8>, usize)>,
    uses: &mut Vec<(Vec<u8>, usize)>,
) -> (r: Result<(), AsmError>)
    requires
        i <= e <= src@.len(),
        forall|k: int|
            0 <= k < old(uses)@.len() ==> #[trigger] pairs_view(old(uses)@)[k].1 + 4 <= old(
                code,
            )@.len(),
        forall|k: int|
            0 <= k < old(labels)@.len() ==> #[trigger] pairs_view(old(labels)@)[k].1 <= old(
                code,
            )@.len(),
    ensures
        match r {
            Ok(()) => {
                let st0 = AsmState {
                    code: old(code)@,
                    labels: pairs_view(old(labels)@),
                    uses: pairs_view(old(uses)@),
                };
                let st1 = AsmState {
                    code: final(code)@,
                    labels: pairs_view(final(labels)@),
                    uses: pairs_view(final(uses)@),
                };
                &&& spec_statement(src@, i as int, e as int, st0) == Ok::<AsmState, AsmErrorSpec>(
                    st1,
                )
                &&& old(code)@.len() <= final(code)@.len() <= old(code)@.len() + 5
                &&& forall|k: int|
                    0 <= k < final(uses)@.len() ==> #[trigger] pairs_view(final(uses)@)[k].1 + 4
                        <= final(code)@.len()
                &&& forall|k: int|
                    0 <= k < final(labels)@.len() ==> #[trigger] pairs_view(final(labels)@)[k].1
                        <= final(code)@.len()
            },
            Err(er) => spec_statement(
                src@,
                i as int,
                e as int,
                AsmState {
                    code: old(code)@,
                    labels: pairs_view(old(labels)@),
                    uses: pairs_view(old(uses)@),
                },
            ) == Err::<AsmState, AsmErrorSpec>(er@),
        },
{
    let a = skip_spaces(src, i, e);
    if a >= e {
        return Ok(());
    }
    let b = token_end(src, a, e);
    proof {
        assert(b > a);
        assert(src@.subrange(a as int, b as int).last() == src@[b - 1]);
    }
    let a2: usize = if src[b - 1] == 58 {
        let name = slice_subrange(src, a, b - 1);
        proof {
            assert(src@.subrange(a as int, b as int).drop_last() =~= src@.subrange(
                a as int,
                b as int - 1,
            ));
        }
        if let Some(_off) = find_label(labels, name) {
            return Err(AsmError::DuplicateLabel(slice_to_vec(name)));
        }
        let off = code.len();
        labels.push((slice_to_vec(name), off));
        proof {
            assert(pairs_view(labels@) =~= pairs_view(old(labels)@).push(
                (name@, old(code)@.len() as int),
            ));
        }
        let a2 = skip_spaces(src, b, e);
        if a2 >= e {
            return Ok(());
        }
        a2
    } else {
        a
    };
    let b2 = token_end(src, a2, e);
    let mn = slice_subrange(src, a2, b2);
    let inst = match Inst::from_bytes(mn) {
        None => {
            return Err(AsmError::UnknownInstruction(slice_to_vec(mn)));
        },
        Some(x) => x,
    };
    code.push(inst.to_u8());
    if inst.num_operands() == 0 {
        return Ok(());
    }
    let c = skip_spaces(src, b2, e);
    if c >= e {
        return Err(AsmError::MissingOperand(slice_to_vec(mn)));
    }
    let d = token_end(src, c, e);
    let op = slice_subrange(src, c, d);
    proof {
        assert(d > c);
        assert(op@[0] == src@[c as int]);
    }
    if op[0] == 64 {
        let name = slice_subrange(src, c + 1, d);
        proof {
            assert(name@ =~= src@.subrange(c as int, d as int).drop_first());
        }
        let at = code.len();
        uses.push((slice_to_vec(name), at));
        code.push(0);
        code.push(0);
        code.push(0);
        code.push(0);
        proof {
            assert(pairs_view(uses@) =~= pairs_view(old(uses)@).push((name@, at as int)));
            assert(code@ =~= old(code)@.push(inst.spec_opcode()) + seq![0u8, 0u8, 0u8, 0u8]);
        }
        Ok(())
    } else {
        match parse_i32(op) {
            Some(v) => {
                append_i32_le(code, v);
                proof {
                    crate::int32::lemma_i32_le_bytes_roundtrip(v);
                    assert(code@ =~= old(code)@.push(inst.spec_opcode()) + spec_i32_to_le_bytes(
                        v,
                    ));
                }
                Ok(())
            },
            None => Err(AsmError::InvalidOperand(slice_to_vec(op))),
        }
    }
}

/// Assemble a source text given as bytes; see [`spec_assemble`] for the
/// exact meaning. All failures are final: there is no partial output.
pub fn assemble_bytes(src: &[u8]) -> (r: Result<Vec<u8>, AsmError>)
    requires
        src@.len() <= MAX_SOURCE_LEN,
    ensures
        match r {
            Ok(v) => spec_assemble(src@) matches Ok(s) && s == v@,
            Err(er) => spec_assemble(src@) matches Err(es) && es == er@,
        },
{
    let n = src.len();
    let mut code: Vec<u8> = Vec::new();
    let mut labels: Vec<(Vec<u8>, usize)> = Vec::new();
    let mut uses: Vec<(Vec<u8>, usize)> = Vec::new();
    let ghost init = AsmState { code: Seq::empty(), labels: Seq::empty(), uses: Seq::empty() };
    proof {
        assert(pairs_view(labels@) =~= Seq::<(Seq<u8>, int)>::empty());
        assert(pairs_view(uses@) =~= Seq::<(Seq<u8>, int)>::empty());
    }
    let mut i: usize = 0;
    while i <= n
        invariant
            n == src@.len(),
            n <= MAX_SOURCE_LEN,
            i <= n + 1,
            init == (AsmState {
                code: Seq::<u8>::empty(),
                labels: Seq::<(Seq<u8>, int)>::empty(),
                uses: Seq::<(Seq<u8>, int)>::empty(),
            }),
            spec_pass1(src@, 0, init) == spec_pass1(
                src@,
                i as int,
                AsmState { code: code@, labels: pairs_view(labels@), uses: pairs_view(uses@) },
            ),
            code@.len() + 4 <= 5 * (i + 1),
            forall|k: int|
                0 <= k < uses@.len() ==> #[trigger] pairs_view(uses@)[k].1 + 4 <= code@.len(),
            forall|k: int|
                0 <= k < labels@.len() ==> #[trigger] pairs_view(labels@)[k].1 <= code@.len(),
        decreases n + 1 - i,
    {
        let e = stmt_end(src, i);
        match process_statement(src, i, e, &mut code, &mut labels, &mut uses) {
            Ok(()) => {},
            Err(er) => {
                return Err(er);
            },
        }
        i = e + 1;
    }
    let ghost lv = pairs_view(labels@);
    let ghost uv = pairs_view(uses@);
    let ghost code1 = code@;
    proof {
        assert(spec_pass1(src@, i as int, AsmState { code: code@, labels: lv, uses: uv })
            == Ok::<AsmState, AsmErrorSpec>(AsmState { code: code@, labels: lv, uses: uv }));
        assert(spec_assemble(src@) == spec_pass2(lv, uv, code@, 0));
    }
    let m = uses.len();
    let mut k: usize = 0;
    while k < m
        invariant
            m == uses@.len(),
            k <= m,
            lv == pairs_view(labels@),
            uv == pairs_view(uses@),
            code@.len() == code1.len(),
            code1.len() < 0x6000_0000,
            spec_assemble(src@) == spec_pass2(lv, uv, code@, k as int),
            forall|j: int| 0 <= j < uv.len() ==> #[trigger] uv[j].1 + 4 <= code@.len(),
            forall|j: int| 0 <= j < lv.len() ==> 0 <= #[trigger] lv[j].1 <= code@.len(),
        decreases m - k,
    {
        let at = uses[k].1;
        proof {
            assert(uv[k as int] == (uses@[k as int].0@, uses@[k as int].1 as int));
        }
        match find_label(&labels, uses[k].0.as_slice()) {
            None => {
                return Err(AsmError::UndefinedLabel(slice_to_vec(uses[k].0.as_slice())));
            },
            Some(target) => {
                proof {
                    lemma_find_label_bound(lv, uses@[k as int].0@, code@.len() as int);
                }
                let delta64: i64 = target as i64 - at as i64;
                let delta: i32 = delta64 as i32;
                let ghost before = code@;
                store_i32_le(&mut code, at, delta);
                proof {
                    assert forall|x: int| 0 <= x < 4 implies code@[at + x] == spec_i32_to_le_bytes(
                        delta,
                    )[x] by {
                        assert(code@.subrange(at as int, at as int + 4)[x] == code@[at + x]);
                    }
                    assert(code@ =~= spec_patch(before, at as int, delta));
                }
            },
        }
        k = k + 1;
    }
    Ok(code)
}

/// Assemble a source text; see [`spec_assemble`] over the text's bytes
/// for the exact meaning.
pub fn assemble(source: &str) -> (r: Result<Vec<u8>, AsmError>)
    requires
        source.spec_bytes().len() <= MAX_SOURCE_LEN,
    ensures
        match r {
            Ok(v) => spec_assemble(source.spec_bytes()) matches Ok(s) && s == v@,
            Err(er) => spec_assemble(source.spec_bytes()) matches Err(es) && es == er@,
        },
{
    assemble_bytes(source.as_bytes())
}

} // verus!
