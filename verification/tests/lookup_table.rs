use zkjson::classify::SpecialChar;
use zkjson::state::{State, StateCheck, StateEncoding};
use zkjson::table::bfs_gen_lookup_table;
use zkjson::transition::JsonStateMutation;

#[test]
fn test_gen_lookup_table() {
    let lookup_table = bfs_gen_lookup_table();

    for row in lookup_table {
        let begin = State::decode(row.0);
        let action = SpecialChar::from(row.2);
        let end: u64 = begin.mutate(action).encode();
        assert_eq!(end, row.1);
    }
}

#[test]
fn regeneration_yields_the_same_table() {
    let first = bfs_gen_lookup_table();
    let second = bfs_gen_lookup_table();
    assert_eq!(first, second);
}

#[test]
fn table_covers_every_walked_state() {
    let table = bfs_gen_lookup_table();
    let mut state = State::new();
    for c in "{\"a{}\": 1, \"b\": \"\\\"\"}".chars() {
        state = state.mutate(SpecialChar::from(c));
        let encoding = state.encode();
        assert!(table.iter().any(|row| row.0 == encoding));
    }
}

#[test]
fn table_starts_from_the_empty_state() {
    let table = bfs_gen_lookup_table();
    // One full round of 256 inputs per visited state, the empty
    // state first.
    assert!(table.len() >= 256);
    assert_eq!(table.len() % 256, 0);
    assert_eq!(table[0].0, 0);
    // From the empty state, "{" opens an object and white space is
    // ignored; everything else is the invalid sink (encoding 1).
    assert_eq!(table[0x7b], (0, 0x002, '{'));
    assert_eq!(table[0x20], (0, 0, ' '));
    assert_eq!(table[b'x' as usize], (0, 0x001, 'x'));
}
