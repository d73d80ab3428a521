//! The structural witness model: one row per input symbol, carrying
//! the per-character match flags, the in-string status, the escape
//! status and the brace-nesting level, together with the per-row gate
//! relations a constraint system enforces over those columns.
//!
//! The inverse-witness gadgets of the constraint encoding are modelled
//! by their meaning: a match flag equals the comparison it witnesses,
//! and a nonzero level is stated as `level != 0` (the level column's
//! inverse witness exists exactly then). Booleanity holds by typing.

use vstd::prelude::*;

verus! {

/// One row of the structural witness.
#[derive(Debug, Clone, Copy, PartialEq, Eq, Structural)]
pub struct CircuitRow {
    /// The input symbol of this row.
    pub raw: u64,
    /// Match flag: the symbol is `\`.
    pub backslash: bool,
    /// Match flag: the symbol is `"`.
    pub double_quote: bool,
    /// Match flag: the symbol is `{`.
    pub open_brace: bool,
    /// Match flag: the symbol is `}`.
    pub close_brace: bool,
    /// 1 outside every string literal, 0 inside.
    pub not_str: bool,
    /// 1 when this character is consumed as an escaped literal.
    pub str_escaped: bool,
    /// The brace-nesting level after this row.
    pub level: i64,
}

/// The in-string carry after row `i`: an unescaped `"` flips it,
/// everything else keeps it; the scan starts outside any string.
pub open spec fn ns_at(raw: Seq<u64>, i: nat) -> bool
    decreases i, 0int,
{
    let prior = if i == 0 { true } else { ns_at(raw, (i - 1) as nat) };
    let esc_prior = if i == 0 { false } else { esc_at(raw, (i - 1) as nat) };
    if raw[i as int] == 0x22 && !esc_prior {
        !prior
    } else {
        prior
    }
}

/// The escape carry after row `i`: a backslash inside a string starts
/// an escape unless the previous character already was one; escapes
/// never chain.
pub open spec fn esc_at(raw: Seq<u64>, i: nat) -> bool
    decreases i, 1int,
{
    let esc_prior = if i == 0 { false } else { esc_at(raw, (i - 1) as nat) };
    if esc_prior {
        false
    } else {
        raw[i as int] == 0x5c && !ns_at(raw, i)
    }
}

/// The nesting level after row `i`: an unquoted `{` raises it, an
/// unquoted `}` lowers it, everything else keeps it; the scan starts
/// at level zero.
pub open spec fn level_at(raw: Seq<u64>, i: nat) -> int
    decreases i, 2int,
{
    let prior: int = if i == 0 { 0 } else { level_at(raw, (i - 1) as nat) };
    if raw[i as int] == 0x7b && ns_at(raw, i) {
        prior + 1
    } else if raw[i as int] == 0x7d && ns_at(raw, i) {
        prior - 1
    } else {
        prior
    }
}

/// The level moves by at most one per row.
pub proof fn lemma_level_bound(raw: Seq<u64>, i: nat)
    ensures
        -(i + 1) <= level_at(raw, i) <= i + 1,
    decreases i,
{
    if i > 0 {
        lemma_level_bound(raw, (i - 1) as nat);
    }
}

/// The honest witness row for index `i`.
pub open spec fn row_at(raw: Seq<u64>, i: nat) -> CircuitRow {
    CircuitRow {
        raw: raw[i as int],
        backslash: raw[i as int] == 0x5c,
        double_quote: raw[i as int] == 0x22,
        open_brace: raw[i as int] == 0x7b,
        close_brace: raw[i as int] == 0x7d,
        not_str: ns_at(raw, i),
        str_escaped: esc_at(raw, i),
        level: level_at(raw, i) as i64,
    }
}

/// The honest witness: one row per symbol, carries threaded in strict
/// left-to-right order.
pub open spec fn witness_spec(raw: Seq<u64>) -> Seq<CircuitRow> {
    Seq::new(raw.len(), |i: int| row_at(raw, i as nat))
}

/// Start-row gate: the document opens with an unquoted `{` at level 1.
pub open spec fn start_row_ok(r: CircuitRow) -> bool {
    &&& r.raw == 0x7b
    &&& r.not_str
    &&& r.open_brace
    &&& !r.backslash
    &&& !r.close_brace
    &&& !r.double_quote
    &&& r.level == 1
}

/// Character-match gates: each flag holds exactly when the symbol is
/// the corresponding structural character (the zero-test gadgets).
pub open spec fn match_flags_ok(r: CircuitRow) -> bool {
    &&& r.backslash == (r.raw == 0x5c)
    &&& r.double_quote == (r.raw == 0x22)
    &&& r.open_brace == (r.raw == 0x7b)
    &&& r.close_brace == (r.raw == 0x7d)
}

/// String-toggle gate: a non-quote keeps the in-string status, an
/// unescaped quote flips it.
pub open spec fn toggle_ok(r: CircuitRow, p: CircuitRow) -> bool {
    &&& !r.double_quote ==> r.not_str == p.not_str
    &&& (r.double_quote && !p.str_escaped) ==> r.not_str == !p.not_str
}

/// Escape gates: no backslash outside a string, escapes never chain,
/// and inside a string a fresh escape is exactly a backslash.
pub open spec fn escape_ok(r: CircuitRow, p: CircuitRow) -> bool {
    &&& r.not_str ==> !r.backslash
    &&& p.str_escaped ==> !r.str_escaped
    &&& (!r.not_str && !p.str_escaped) ==> r.str_escaped == r.backslash
}

/// Level gates: unquoted braces move the level by one, everything
/// else keeps it.
pub open spec fn level_ok(r: CircuitRow, p: CircuitRow) -> bool {
    &&& (!r.open_brace && !r.close_brace) ==> r.level == p.level
    &&& (r.not_str && r.open_brace) ==> r.level == p.level + 1
    &&& (r.not_str && r.close_brace) ==> r.level == p.level - 1
}

/// All gates of an interior row, including the positive-level gadget.
pub open spec fn body_row_ok(r: CircuitRow, p: CircuitRow) -> bool {
    &&& match_flags_ok(r)
    &&& toggle_ok(r, p)
    &&& escape_ok(r, p)
    &&& level_ok(r, p)
    &&& r.level != 0
}

/// End-row gates: the document closes with an unquoted `}` that
/// brings the level back to zero.
pub open spec fn end_row_ok(r: CircuitRow, p: CircuitRow) -> bool {
    &&& r.not_str
    &&& r.close_brace
    &&& r.level == 0
    &&& (r.not_str && r.close_brace) ==> r.level == p.level - 1
}

/// Whether a whole witness assignment satisfies every enabled gate.
pub open spec fn rows_ok(rows: Seq<CircuitRow>) -> bool {
    &&& rows.len() >= 2
    &&& start_row_ok(rows[0])
    &&& forall|i: int| 1 <= i < rows.len() - 1 ==> body_row_ok(#[trigger] rows[i], rows[i - 1])
    &&& end_row_ok(rows[rows.len() - 1], rows[rows.len() - 2])
}

/// Structural well-formedness of a symbol sequence: it opens with `{`
/// and closes with `}` at nesting level zero, outside any string; the
/// level never returns to zero early; and no backslash stands outside
/// a string.
pub open spec fn structurally_wellformed(raw: Seq<u64>) -> bool {
    &&& raw.len() >= 2
    &&& raw[0] == 0x7b
    &&& raw[raw.len() - 1] == 0x7d
    &&& ns_at(raw, (raw.len() - 1) as nat)
    &&& level_at(raw, (raw.len() - 1) as nat) == 0
    &&& forall|i: int| 1 <= i < raw.len() - 1 ==> #[trigger] level_at(raw, i as nat) != 0
    &&& forall|i: int|
        1 <= i < raw.len() - 1 ==> !(raw[i] == 0x5c && #[trigger] ns_at(raw, i as nat))
}

/// Acceptance and rejection in one statement: the honest witness
/// satisfies every gate exactly when the input is structurally
/// well-formed. Malformed input inevitably violates some gate, which
/// is the constraint system's rejection mechanism.
pub proof fn lemma_witness_constraints(raw: Seq<u64>)
    requires
        raw.len() >= 2,
        raw.len() <= 0x4000_0000_0000_0000,
    ensures
        rows_ok(witness_spec(raw)) <==> structurally_wellformed(raw),
{
    let rows = witness_spec(raw);
    let n = raw.len() as int;
    assert forall|i: int| 1 <= i < n - 1 implies (body_row_ok(
        #[trigger] rows[i],
        rows[i - 1],
    ) <==> (level_at(raw, i as nat) != 0 && !(raw[i] == 0x5c && ns_at(raw, i as nat)))) by {
        lemma_level_bound(raw, i as nat);
        lemma_level_bound(raw, (i - 1) as nat);
        assert(rows[i] == row_at(raw, i as nat));
        assert(rows[i - 1] == row_at(raw, (i - 1) as nat));
    }
    lemma_level_bound(raw, (n - 1) as nat);
    lemma_level_bound(raw, (n - 2) as nat);
    lemma_level_bound(raw, 0);
    assert(rows[0] == row_at(raw, 0));
    assert(rows[n - 1] == row_at(raw, (n - 1) as nat));
    assert(rows[n - 2] == row_at(raw, (n - 2) as nat));
    if structurally_wellformed(raw) {
        assert(start_row_ok(rows[0]));
        assert forall|i: int| 1 <= i < n - 1 implies body_row_ok(
            #[trigger] rows[i],
            rows[i - 1],
        ) by {
            assert(level_at(raw, i as nat) != 0);
            assert(!(raw[i] == 0x5c && ns_at(raw, i as nat)));
        }
        assert(end_row_ok(rows[n - 1], rows[n - 2]));
    }
    if rows_ok(rows) {
        assert forall|i: int| 1 <= i < n - 1 implies level_at(raw, i as nat) != 0 && !(raw[i]
            == 0x5c && ns_at(raw, i as nat)) by {
            assert(body_row_ok(rows[i], rows[i - 1]));
        }
    }
}

/// Rejection of unbalanced braces: if the unquoted-brace count does
/// not return to zero exactly at the end — the final level is nonzero,
/// or the level already hits zero on an interior row — then the honest
/// witness violates some gate and the input is not well-formed.
pub proof fn lemma_unbalanced_rejected(raw: Seq<u64>)
    requires
        raw.len() >= 2,
        raw.len() <= 0x4000_0000_0000_0000,
        level_at(raw, (raw.len() - 1) as nat) != 0 || exists|i: int|
            1 <= i < raw.len() - 1 && level_at(raw, #[trigger] (i as nat)) == 0,
    ensures
        !structurally_wellformed(raw),
        !rows_ok(witness_spec(raw)),
{
    lemma_witness_constraints(raw);
}

/// Builds the honest witness in one strict left-to-right pass,
/// threading the in-string, escape and level carries.
pub fn build_witness(raw: &Vec<u64>) -> (rows: Vec<CircuitRow>)
    requires
        raw@.len() <= 0x4000_0000_0000_0000,
    ensures
        rows@ == witness_spec(raw@),
{
    let n = raw.len();
    let mut rows: Vec<CircuitRow> = Vec::new();
    let mut not_str: bool = true;
    let mut esc: bool = false;
    let mut level: i64 = 0;
    let mut i: usize = 0;
    while i < n
        invariant
            n == raw@.len(),
            n <= 0x4000_0000_0000_0000,
            0 <= i <= n,
            rows@.len() == i,
            forall|j: int| 0 <= j < i ==> rows@[j] == row_at(raw@, j as nat),
            not_str == if i == 0 { true } else { ns_at(raw@, (i - 1) as nat) },
            esc == if i == 0 { false } else { esc_at(raw@, (i - 1) as nat) },
            level == if i == 0 { 0int } else { level_at(raw@, (i - 1) as nat) },
            -(i as int) <= level <= i as int,
        decreases n - i,
    {
        let c = raw[i];
        let new_not_str = if c == 0x22 && !esc { !not_str } else { not_str };
        let new_esc = if esc { false } else { c == 0x5c && !new_not_str };
        let new_level = if c == 0x7b && new_not_str {
            level + 1
        } else if c == 0x7d && new_not_str {
            level - 1
        } else {
            level
        };
        proof {
            assert(new_not_str == ns_at(raw@, i as nat));
            assert(new_esc == esc_at(raw@, i as nat));
            assert(new_level == level_at(raw@, i as nat));
        }
        let row = CircuitRow {
            raw: c,
            backslash: c == 0x5c,
            double_quote: c == 0x22,
            open_brace: c == 0x7b,
            close_brace: c == 0x7d,
            not_str: new_not_str,
            str_escaped: new_esc,
            level: new_level,
        };
        rows.push(row);
        proof {
            assert(rows@[i as int] == row_at(raw@, i as nat));
        }
        not_str = new_not_str;
        esc = new_esc;
        level = new_level;
        i = i + 1;
    }
    proof {
        assert(rows@ =~= witness_spec(raw@));
    }
    rows
}

/// Evaluates every enabled gate on a witness assignment.
pub fn check_rows(rows: &Vec<CircuitRow>) -> (ok: bool)
    ensures
        ok == rows_ok(rows@),
{
    let n = rows.len();
    if n < 2 {
        return false;
    }
    let r0 = rows[0];
    if !(r0.raw == 0x7b && r0.not_str && r0.open_brace && !r0.backslash && !r0.close_brace
        && !r0.double_quote && r0.level == 1) {
        assert(!start_row_ok(rows@[0]));
        return false;
    }
    let mut i: usize = 1;
    while i < n - 1
        invariant
            n == rows@.len(),
            2 <= n,
            1 <= i <= n - 1,
            forall|j: int| 1 <= j < i ==> body_row_ok(#[trigger] rows@[j], rows@[j - 1]),
        decreases n - i,
    {
        let r = rows[i];
        let p = rows[i - 1];
        let match_ok = r.backslash == (r.raw == 0x5c) && r.double_quote == (r.raw == 0x22)
            && r.open_brace == (r.raw == 0x7b) && r.close_brace == (r.raw == 0x7d);
        let tog_ok = (r.double_quote || r.not_str == p.not_str) && (!(r.double_quote
            && !p.str_escaped) || r.not_str == !p.not_str);
        let esc_ok = (!r.not_str || !r.backslash) && (!p.str_escaped || !r.str_escaped) && (!(
        !r.not_str && !p.str_escaped) || r.str_escaped == r.backslash);
        let lvl_ok = ((r.open_brace || r.close_brace) || r.level == p.level) && (!(r.not_str
            && r.open_brace) || r.level as i128 == p.level as i128 + 1) && (!(r.not_str
            && r.close_brace) || r.level as i128 == p.level as i128 - 1);
        if !(match_ok && tog_ok && esc_ok && lvl_ok && r.level != 0) {
            assert(!body_row_ok(rows@[i as int], rows@[i as int - 1]));
            return false;
        }
        i = i + 1;
    }
    let r = rows[n - 1];
    let p = rows[n - 2];
    let end_ok = r.not_str && r.close_brace && r.level == 0 && (!(r.not_str && r.close_brace)
        || r.level as i128 == p.level as i128 - 1);
    if !end_ok {
        assert(!end_row_ok(rows@[n - 1], rows@[n - 2]));
        return false;
    }
    true
}

/// Whether a symbol sequence is accepted by the structural circuit:
/// the honest witness is built and every gate is evaluated on it.
/// Sequences too short to hold a start and an end row are rejected
/// before any witness is assigned.
pub fn structurally_valid(raw: &Vec<u64>) -> (ok: bool)
    requires
        raw@.len() <= 0x4000_0000_0000_0000,
    ensures
        ok == structurally_wellformed(raw@),
{
    if raw.len() < 2 {
        return false;
    }
    let rows = build_witness(raw);
    let ok = check_rows(&rows);
    proof {
        lemma_witness_constraints(raw@);
    }
    ok
}

} // verus!
