//! The transition-table generator: a breadth-first enumeration of all
//! states reachable from the encoded empty state, emitting one
//! `(before, after, input)` row per reachable state and input symbol.
//! The table is the artifact a lookup-argument consumer reads.

use vstd::prelude::*;
use vstd::seq_lib::*;
use vstd::set_lib::*;
use crate::classify::{byte_class, classify, lemma_class_witness, SpecialChar};
use crate::state::{
    State, StateBits, StateCheck, StateEncoding, decode_spec, empty_state, encode_spec,
    lemma_encode_bound, lemma_encode_decode_roundtrip, lemma_no_flags_is_empty,
};
use crate::transition::{
    lemma_reachable_empty, lemma_reachable_step, lemma_run_snoc, reachable, run_spec,
    transition_spec, JsonStateMutation,
};

verus! {

broadcast use vstd::set::group_set_axioms;

/// The encoding of the state one step takes `decode(before)` to on
/// the input byte `j`.
pub open spec fn step_enc(before: u64, j: u8) -> u64 {
    encode_spec(transition_spec(decode_spec(before), classify(j as char)))
}

/// The table row emitted for the state encoding `before` and the
/// input byte `j`.
pub open spec fn table_row(before: u64, j: u8) -> (u64, u64, char) {
    (before, step_enc(before, j), j as char)
}

/// The 256 rows emitted for one reachable state, in input order.
pub open spec fn rows_for(before: u64) -> Seq<(u64, u64, char)> {
    Seq::new(256, |j: int| table_row(before, j as u8))
}

/// A well-formed traversal configuration: every recorded or queued
/// encoding is below `2^11`, the work stack holds no duplicates, and
/// nothing queued was already visited.
pub open spec fn bfs_wf(stack: Seq<u64>, seen: Set<u64>) -> bool {
    &&& seen.finite()
    &&& (forall|x: u64| seen.contains(x) ==> x < 2048)
    &&& (forall|i: int| 0 <= i < stack.len() ==> #[trigger] stack[i] < 2048)
    &&& stack.no_duplicates()
    &&& (forall|i: int| 0 <= i < stack.len() ==> !seen.contains(#[trigger] stack[i]))
}

/// The work stack after one state's 256 successors, from byte `j`
/// on, have been considered: each successor not yet visited and not
/// yet queued is pushed.
pub open spec fn push_round(before: u64, stack: Seq<u64>, seen: Set<u64>, j: int) -> Seq<u64>
    decreases 256 - j,
{
    if j < 0 || j >= 256 {
        stack
    } else {
        let after = step_enc(before, j as u8);
        let stack1 = if seen.contains(after) || stack.contains(after) {
            stack
        } else {
            stack.push(after)
        };
        push_round(before, stack1, seen, j + 1)
    }
}

/// A set of encodings below a bound has at most `bound` elements.
proof fn lemma_bounded_u64_set_len(s: Set<u64>, bound: u64)
    requires
        s.finite(),
        forall|x: u64| s.contains(x) ==> x < bound,
    ensures
        s.len() <= bound,
    decreases bound,
{
    if bound == 0 {
        assert(s =~= Set::<u64>::empty());
    } else {
        let m = (bound - 1) as u64;
        let s2 = s.remove(m);
        assert(forall|x: u64| s2.contains(x) ==> x < m);
        lemma_bounded_u64_set_len(s2, m);
        if !s.contains(m) {
            assert(s2 =~= s);
        }
    }
}

/// A well-formed configuration covers at most the 2048 possible
/// encodings.
proof fn lemma_wf_card(stack: Seq<u64>, seen: Set<u64>)
    requires
        bfs_wf(stack, seen),
    ensures
        seen.len() + stack.len() <= 2048,
{
    stack.unique_seq_to_set();
    assert forall|x: u64| !(#[trigger] seen.contains(x) && stack.to_set().contains(x)) by {
        if stack.to_set().contains(x) {
            let i = choose|i: int| 0 <= i < stack.len() && stack[i] == x;
            assert(!seen.contains(stack[i]));
        }
    }
    lemma_set_disjoint_lens(seen, stack.to_set());
    let u = seen + stack.to_set();
    assert forall|x: u64| u.contains(x) implies x < 2048 by {
        if stack.to_set().contains(x) {
            let i = choose|i: int| 0 <= i < stack.len() && stack[i] == x;
            assert(stack[i] < 2048);
        }
    }
    lemma_bounded_u64_set_len(u, 2048);
}

/// Considering one state's successors preserves well-formedness and
/// only appends to the stack.
proof fn lemma_push_round_props(before: u64, stack: Seq<u64>, seen: Set<u64>, j: int)
    requires
        bfs_wf(stack, seen),
    ensures
        ({
            let r = push_round(before, stack, seen, j);
            &&& bfs_wf(r, seen)
            &&& r.len() >= stack.len()
            &&& forall|k: int| 0 <= k < stack.len() ==> #[trigger] r[k] == stack[k]
        }),
    decreases 256 - j,
{
    if 0 <= j < 256 {
        let after = step_enc(before, j as u8);
        let stack1 = if seen.contains(after) || stack.contains(after) {
            stack
        } else {
            stack.push(after)
        };
        if !(seen.contains(after) || stack.contains(after)) {
            lemma_encode_bound(transition_spec(decode_spec(before), classify((j as u8) as char)));
            assert forall|i: int, k: int|
                (0 <= i < stack1.len() && 0 <= k < stack1.len() && i != k) implies stack1[i]
                != stack1[k] by {
                if i == stack.len() as int {
                    assert(stack1[k] == stack[k]);
                    assert(stack[k] != after);
                } else if k == stack.len() as int {
                    assert(stack1[i] == stack[i]);
                    assert(stack[i] != after);
                }
            }
            assert(bfs_wf(stack1, seen));
        }
        lemma_push_round_props(before, stack1, seen, j + 1);
    }
}

/// The traversal's termination measure: visiting a state costs more
/// than every push it can cause.
pub open spec fn bfs_measure(stack: Seq<u64>, seen: Set<u64>) -> int {
    257 * (2049 - seen.len() - stack.len()) + stack.len()
}

/// The rows a traversal of the remaining work stack emits: the top
/// state is visited, its 256 rows are emitted, and its unseen
/// successors join the stack. An ill-formed configuration (which the
/// generator never reaches) emits nothing.
pub open spec fn bfs_rows(stack: Seq<u64>, seen: Set<u64>) -> Seq<(u64, u64, char)>
    decreases bfs_measure(stack, seen),
        via bfs_rows_decreases
{
    if !bfs_wf(stack, seen) {
        Seq::empty()
    } else if stack.len() == 0 {
        Seq::empty()
    } else {
        let before = stack.last();
        let seen1 = seen.insert(before);
        let stack1 = push_round(before, stack.drop_last(), seen1, 0);
        rows_for(before) + bfs_rows(stack1, seen1)
    }
}

/// One unfolding of the traversal on a nonempty well-formed stack.
proof fn lemma_bfs_rows_unfold(stack: Seq<u64>, seen: Set<u64>)
    requires
        bfs_wf(stack, seen),
        stack.len() != 0,
    ensures
        bfs_rows(stack, seen) == rows_for(stack.last()) + bfs_rows(
            push_round(stack.last(), stack.drop_last(), seen.insert(stack.last()), 0),
            seen.insert(stack.last()),
        ),
{
}

/// The traversal of an empty stack emits nothing.
proof fn lemma_bfs_rows_empty(stack: Seq<u64>, seen: Set<u64>)
    requires
        bfs_wf(stack, seen),
        stack.len() == 0,
    ensures
        bfs_rows(stack, seen) == Seq::<(u64, u64, char)>::empty(),
{
}

#[via_fn]
proof fn bfs_rows_decreases(stack: Seq<u64>, seen: Set<u64>) {
    if bfs_wf(stack, seen) && stack.len() != 0 {
        let before = stack.last();
        let seen1 = seen.insert(before);
        let stack0 = stack.drop_last();
        assert(bfs_wf(stack0, seen1)) by {
            assert(forall|i: int|
                0 <= i < stack0.len() ==> #[trigger] stack0[i] == stack[i]);
        }
        lemma_push_round_props(before, stack0, seen1, 0);
        let stack1 = push_round(before, stack0, seen1, 0);
        lemma_wf_card(stack1, seen1);
        lemma_wf_card(stack, seen);
    }
}

/// The lookup table: the rows the breadth-first traversal emits when
/// it starts from the encoded empty state with nothing visited.
pub open spec fn lookup_table_spec() -> Seq<(u64, u64, char)> {
    bfs_rows(seq![encode_spec(empty_state())], Set::<u64>::empty())
}

/// A row is consistent with the transition function: re-applying the
/// function to the decoded `before` state and the row's input yields
/// exactly the stored `after` encoding.
pub open spec fn row_consistent(row: (u64, u64, char)) -> bool {
    &&& row.0 < 2048
    &&& row.1 < 2048
    &&& row.1 == encode_spec(transition_spec(decode_spec(row.0), classify(row.2)))
}

/// Whether `x` occurs in `v`.
fn contains_u64(v: &Vec<u64>, x: u64) -> (r: bool)
    ensures
        r == v@.contains(x),
{
    let mut k: usize = 0;
    while k < v.len()
        invariant
            0 <= k <= v@.len(),
            forall|t: int| 0 <= t < k ==> v@[t] != x,
        decreases v@.len() - k,
    {
        if v[k] == x {
            return true;
        }
        k = k + 1;
    }
    false
}

/// A set of encodings that holds the empty state's encoding and is
/// closed under every single-byte step holds the encoding of every
/// reachable state.
proof fn lemma_closed_set_covers_reachable(seen: Set<u64>, cs: Seq<SpecialChar>)
    requires
        seen.contains(encode_spec(empty_state())),
        forall|x: u64, j: u8| seen.contains(x) ==> seen.contains(#[trigger] step_enc(x, j)),
    ensures
        seen.contains(encode_spec(run_spec(empty_state(), cs))),
    decreases cs.len(),
{
    if cs.len() != 0 {
        let prefix = cs.drop_last();
        let c = cs.last();
        lemma_closed_set_covers_reachable(seen, prefix);
        assert(cs =~= prefix.push(c));
        lemma_run_snoc(empty_state(), prefix, c);
        let s = run_spec(empty_state(), prefix);
        let e = encode_spec(s);
        lemma_class_witness(c);
        let j = choose|j: u8| #[trigger] byte_class(j) == c;
        lemma_encode_decode_roundtrip(s);
        assert(step_enc(e, j) == encode_spec(transition_spec(s, c)));
        assert(seen.contains(step_enc(e, j)));
        assert(run_spec(empty_state(), cs) == transition_spec(s, c));
    }
}

/// Generates the lookup table by breadth-first search from the
/// encoded empty state: pop a state, decode it, classify every input
/// byte, apply the transition function, emit the row, and queue the
/// successor if it is new. The result is pinned to one sequence of
/// rows, so re-generation always reproduces it; every row re-derives
/// under the transition function; and the rows' origin states are
/// exactly the reachable ones — none is unreachable, and every
/// reachable state has its rows.
pub fn bfs_gen_lookup_table() -> (table: Vec<(u64, u64, char)>)
    ensures
        table@ == lookup_table_spec(),
        forall|k: int| 0 <= k < table@.len() ==> row_consistent(#[trigger] table@[k]),
        forall|k: int|
            0 <= k < table@.len() ==> reachable(decode_spec((#[trigger] table@[k]).0)),
        forall|s: State|
            #[trigger] reachable(s) ==> exists|k: int|
                0 <= k < table@.len() && (#[trigger] table@[k]).0 == encode_spec(s),
{
    let mut table: Vec<(u64, u64, char)> = Vec::new();
    let mut buffer: Vec<u64> = Vec::new();
    let mut memory: Vec<u64> = Vec::new();
    let ghost mut seen: Set<u64> = Set::<u64>::empty();
    let start = State::start();
    proof {
        assert forall|b: StateBits| !start.has(b) by {
            assert(!start.has_flag(b));
        }
        lemma_no_flags_is_empty(start);
    }
    let enc0 = start.encode();
    buffer.push(enc0);
    proof {
        assert(start == empty_state());
        assert(buffer@ =~= seq![encode_spec(empty_state())]);
        lemma_encode_bound(empty_state());
        lemma_encode_decode_roundtrip(empty_state());
        lemma_reachable_empty();
        assert(table@ + bfs_rows(buffer@, seen) =~= lookup_table_spec());
        assert(buffer@[0] == encode_spec(empty_state()));
    }
    while buffer.len() != 0
        invariant
            bfs_wf(buffer@, seen),
            forall|x: u64| memory@.contains(x) == seen.contains(x),
            table@ + bfs_rows(buffer@, seen) == lookup_table_spec(),
            forall|k: int| 0 <= k < table@.len() ==> row_consistent(#[trigger] table@[k]),
            forall|i: int|
                0 <= i < buffer@.len() ==> reachable(decode_spec(#[trigger] buffer@[i])),
            forall|k: int|
                0 <= k < table@.len() ==> reachable(decode_spec((#[trigger] table@[k]).0)),
            seen.contains(encode_spec(empty_state())) || buffer@.contains(
                encode_spec(empty_state()),
            ),
            forall|x: u64, j2: u8|
                seen.contains(x) ==> seen.contains(#[trigger] step_enc(x, j2))
                    || buffer@.contains(step_enc(x, j2)),
            forall|x: u64|
                #[trigger] seen.contains(x) ==> exists|k: int|
                    0 <= k < table@.len() && (#[trigger] table@[k]).0 == x,
        decreases bfs_measure(buffer@, seen),
    {
        let ghost ostack = buffer@;
        let ghost oseen = seen;
        let ghost omem = memory@;
        let before = buffer.pop().unwrap();
        memory.push(before);
        proof {
            seen = seen.insert(before);
        }
        let ghost stack0 = buffer@;
        let ghost seen1 = seen;
        proof {
            assert(before == ostack.last());
            assert(stack0 == ostack.drop_last());
            assert(forall|i: int| 0 <= i < stack0.len() ==> #[trigger] stack0[i] == ostack[i]);
            assert forall|i: int| 0 <= i < stack0.len() implies !seen1.contains(
                #[trigger] stack0[i],
            ) by {
                assert(stack0[i] == ostack[i]);
                assert(ostack[i] != ostack[ostack.len() - 1]);
            }
            assert(bfs_wf(stack0, seen1));
            assert forall|x: u64| memory@.contains(x) == seen1.contains(x) by {
                if memory@.contains(x) {
                    let i = choose|i: int| 0 <= i < memory@.len() && memory@[i] == x;
                    if i < omem.len() {
                        assert(omem[i] == x);
                        assert(omem.contains(x));
                    } else {
                        assert(x == before);
                    }
                }
                if seen1.contains(x) {
                    if x == before {
                        assert(memory@[memory@.len() - 1] == x);
                        assert(memory@.contains(x));
                    } else {
                        assert(oseen.contains(x));
                        assert(omem.contains(x));
                        let i = choose|i: int| 0 <= i < omem.len() && omem[i] == x;
                        assert(memory@[i] == x);
                        assert(memory@.contains(x));
                    }
                }
            }
            lemma_bfs_rows_unfold(ostack, oseen);
            assert(bfs_rows(ostack, oseen) == rows_for(before) + bfs_rows(
                push_round(before, stack0, seen1, 0),
                seen1,
            ));
            let z = encode_spec(empty_state());
            if !oseen.contains(z) {
                assert(ostack.contains(z));
                let i = choose|i: int| 0 <= i < ostack.len() && ostack[i] == z;
                if i < ostack.len() - 1 {
                    assert(buffer@[i] == z);
                    assert(buffer@.contains(z));
                }
            }
            assert(seen1.contains(z) || buffer@.contains(z));
            assert forall|x: u64, j2: u8| seen1.contains(x) && x != before implies seen1.contains(
                #[trigger] step_enc(x, j2),
            ) || buffer@.contains(step_enc(x, j2)) by {
                assert(oseen.contains(x));
                let y = step_enc(x, j2);
                if !oseen.contains(y) {
                    assert(ostack.contains(y));
                    let i = choose|i: int| 0 <= i < ostack.len() && ostack[i] == y;
                    if i < ostack.len() - 1 {
                        assert(buffer@[i] == y);
                        assert(buffer@.contains(y));
                    } else {
                        assert(y == before);
                    }
                }
            }
            assert forall|x: u64|
                #[trigger] seen1.contains(x) && x != before implies exists|k: int|
                    0 <= k < table@.len() && (#[trigger] table@[k]).0 == x by {
                assert(oseen.contains(x));
            }
        }
        let state = State::decode(before);
        proof {
            lemma_encode_decode_roundtrip(state);
            assert(state == decode_spec(before));
            assert(reachable(decode_spec(ostack[ostack.len() - 1])));
        }
        let ghost tbase = table@;
        let mut j: u16 = 0;
        while j < 256
            invariant
                0 <= j <= 256,
                before < 2048,
                state == decode_spec(before),
                reachable(state),
                bfs_wf(buffer@, seen1),
                buffer@.len() >= stack0.len(),
                forall|x: u64| memory@.contains(x) == seen1.contains(x),
                push_round(before, buffer@, seen1, j as int) == push_round(
                    before,
                    stack0,
                    seen1,
                    0,
                ),
                table@ == tbase + rows_for(before).subrange(0, j as int),
                forall|k: int| 0 <= k < tbase.len() ==> row_consistent(#[trigger] tbase[k]),
                forall|k: int| 0 <= k < table@.len() ==> row_consistent(#[trigger] table@[k]),
                forall|i: int|
                    0 <= i < buffer@.len() ==> reachable(decode_spec(#[trigger] buffer@[i])),
                forall|k: int|
                    0 <= k < tbase.len() ==> reachable(decode_spec((#[trigger] tbase[k]).0)),
                forall|k: int|
                    0 <= k < table@.len() ==> reachable(decode_spec((#[trigger] table@[k]).0)),
                forall|k: int| 0 <= k < stack0.len() ==> #[trigger] buffer@[k] == stack0[k],
                seen1.contains(encode_spec(empty_state())) || buffer@.contains(
                    encode_spec(empty_state()),
                ),
                forall|x: u64, j2: u8|
                    seen1.contains(x) && x != before ==> seen1.contains(
                        #[trigger] step_enc(x, j2),
                    ) || buffer@.contains(step_enc(x, j2)),
                forall|j2: u8|
                    (j2 as u16) < j ==> seen1.contains(#[trigger] step_enc(before, j2))
                        || buffer@.contains(step_enc(before, j2)),
                forall|x: u64|
                    #[trigger] seen1.contains(x) && x != before ==> exists|k: int|
                        0 <= k < table@.len() && (#[trigger] table@[k]).0 == x,
            decreases 256 - j,
        {
            let b8 = j as u8;
            let ch = b8 as char;
            let action = SpecialChar::from(ch);
            let end_state = state.mutate(action);
            let after = end_state.encode();
            proof {
                assert(after == step_enc(before, b8));
                lemma_encode_decode_roundtrip(end_state);
                lemma_reachable_step(state, classify(ch));
                assert(reachable(decode_spec(after)));
            }
            let ghost told = table@;
            table.push((before, after, ch));
            proof {
                assert(rows_for(before)[j as int] == table_row(before, b8));
                assert(table@ =~= tbase + rows_for(before).subrange(0, j as int + 1));
                assert forall|x: u64|
                    #[trigger] seen1.contains(x) && x != before implies exists|k: int|
                        0 <= k < table@.len() && (#[trigger] table@[k]).0 == x by {
                    let k0 = choose|k0: int| 0 <= k0 < told.len() && told[k0].0 == x;
                    assert(table@[k0] == told[k0]);
                }
            }
            let in_mem = contains_u64(&memory, after);
            let in_buf = contains_u64(&buffer, after);
            let ghost bstack = buffer@;
            if !in_mem && !in_buf {
                buffer.push(after);
                proof {
                    assert forall|i: int, k: int|
                        (0 <= i < buffer@.len() && 0 <= k < buffer@.len() && i != k) implies
                        buffer@[i] != buffer@[k] by {
                        if i == bstack.len() as int {
                            assert(buffer@[k] == bstack[k]);
                            assert(bstack[k] != after);
                        } else if k == bstack.len() as int {
                            assert(buffer@[i] == bstack[i]);
                            assert(bstack[i] != after);
                        } else {
                            assert(buffer@[i] == bstack[i]);
                            assert(buffer@[k] == bstack[k]);
                        }
                    }
                    assert(bfs_wf(buffer@, seen1));
                    assert(push_round(before, bstack, seen1, j as int) == push_round(
                        before,
                        buffer@,
                        seen1,
                        j as int + 1,
                    ));
                    assert(forall|k: int|
                        0 <= k < stack0.len() ==> #[trigger] buffer@[k] == stack0[k]);
                    let z = encode_spec(empty_state());
                    if !seen1.contains(z) {
                        let i = choose|i: int| 0 <= i < bstack.len() && bstack[i] == z;
                        assert(buffer@[i] == z);
                        assert(buffer@.contains(z));
                    }
                    assert forall|x: u64, j2: u8|
                        seen1.contains(x) && x != before implies seen1.contains(
                            #[trigger] step_enc(x, j2),
                        ) || buffer@.contains(step_enc(x, j2)) by {
                        let y = step_enc(x, j2);
                        if !seen1.contains(y) {
                            assert(bstack.contains(y));
                            let i = choose|i: int| 0 <= i < bstack.len() && bstack[i] == y;
                            assert(buffer@[i] == y);
                            assert(buffer@.contains(y));
                        }
                    }
                    assert forall|j2: u8| (j2 as u16) < j + 1 implies seen1.contains(
                        #[trigger] step_enc(before, j2),
                    ) || buffer@.contains(step_enc(before, j2)) by {
                        if (j2 as u16) < j {
                            let y = step_enc(before, j2);
                            if !seen1.contains(y) {
                                assert(bstack.contains(y));
                                let i = choose|i: int| 0 <= i < bstack.len() && bstack[i] == y;
                                assert(buffer@[i] == y);
                                assert(buffer@.contains(y));
                            }
                        } else {
                            assert(j2 == b8);
                            assert(buffer@[buffer@.len() - 1] == after);
                            assert(buffer@.contains(step_enc(before, j2)));
                        }
                    }
                }
            } else {
                proof {
                    assert(seen1.contains(after) || bstack.contains(after));
                    assert(push_round(before, bstack, seen1, j as int) == push_round(
                        before,
                        buffer@,
                        seen1,
                        j as int + 1,
                    ));
                    assert forall|j2: u8| (j2 as u16) < j + 1 implies seen1.contains(
                        #[trigger] step_enc(before, j2),
                    ) || buffer@.contains(step_enc(before, j2)) by {
                        if !((j2 as u16) < j) {
                            assert(j2 == b8);
                            assert(seen1.contains(after) || buffer@.contains(after));
                        }
                    }
                }
            }
            j = j + 1;
        }
        proof {
            assert(push_round(before, buffer@, seen1, 256) == buffer@);
            assert(buffer@ == push_round(before, stack0, seen1, 0));
            assert(rows_for(before).subrange(0, 256) =~= rows_for(before));
            assert(table@ == tbase + rows_for(before));
            assert((tbase + rows_for(before)) + bfs_rows(buffer@, seen1) =~= tbase + (rows_for(
                before,
            ) + bfs_rows(buffer@, seen1)));
            assert(table@ + bfs_rows(buffer@, seen1) == lookup_table_spec());
            lemma_wf_card(buffer@, seen1);
            lemma_wf_card(ostack, oseen);
            assert forall|x: u64, j2: u8| seen.contains(x) implies seen.contains(
                #[trigger] step_enc(x, j2),
            ) || buffer@.contains(step_enc(x, j2)) by {
                if x == before {
                    assert((j2 as u16) < 256);
                }
            }
            assert(table@[tbase.len() as int] == rows_for(before)[0]);
            assert forall|x: u64| #[trigger] seen.contains(x) implies exists|k: int|
                0 <= k < table@.len() && (#[trigger] table@[k]).0 == x by {
                if x == before {
                    assert((#[trigger] table@[tbase.len() as int]).0 == x);
                    assert(0 <= tbase.len() < table@.len());
                }
            }
        }
    }
    proof {
        lemma_bfs_rows_empty(buffer@, seen);
        assert(table@ + bfs_rows(buffer@, seen) =~= table@);
        assert(buffer@.len() == 0);
        assert(seen.contains(encode_spec(empty_state())));
        assert forall|x: u64, j2: u8| seen.contains(x) implies seen.contains(
            #[trigger] step_enc(x, j2),
        ) by {
            assert(!buffer@.contains(step_enc(x, j2)));
        }
        assert forall|s: State| #[trigger] reachable(s) implies exists|k: int|
            0 <= k < table@.len() && (#[trigger] table@[k]).0 == encode_spec(s) by {
            let cs = choose|cs: Seq<SpecialChar>| s == run_spec(empty_state(), cs);
            lemma_closed_set_covers_reachable(seen, cs);
            assert(seen.contains(encode_spec(s)));
        }
    }
    table
}

/// Determinism of generation: any two tables that satisfy the
/// generator's contract are the same sequence of rows.
pub proof fn lemma_generation_deterministic(
    first: Seq<(u64, u64, char)>,
    second: Seq<(u64, u64, char)>,
)
    requires
        first == lookup_table_spec(),
        second == lookup_table_spec(),
    ensures
        first == second,
{
}

} // verus!
