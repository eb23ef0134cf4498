use majority::tournament::Tuple;
use majority::{boyer_moore, fischer_salzberg, matula_tournament};

/// An element that compares by its key alone.
#[derive(Debug)]
struct Keyed {
    key: u8,
    tag: u32,
}

impl PartialEq for Keyed {
    fn eq(&self, other: &Keyed) -> bool {
        self.key == other.key
    }
}

impl Eq for Keyed {}

fn count_of(stream: &[u8], v: u8) -> usize {
    stream.iter().filter(|x| **x == v).count()
}

/// The majority element of `stream` by plain counting.
fn majority_by_count(stream: &[u8]) -> Option<u8> {
    for v in stream {
        if 2 * count_of(stream, *v) > stream.len() {
            return Some(*v);
        }
    }
    None
}

/// The element that holds exactly half of `stream` and not its first
/// position, by plain counting. Such an element is no majority.
fn late_half_by_count(stream: &[u8]) -> Option<u8> {
    for v in stream {
        if 2 * count_of(stream, *v) == stream.len() && stream[0] != *v {
            return Some(*v);
        }
    }
    None
}

/// Every stream over `0..symbols` of the given length, in counting order.
fn streams(symbols: u8, length: usize) -> Vec<Vec<u8>> {
    let mut all: Vec<Vec<u8>> = vec![Vec::new()];
    for _ in 0..length {
        let mut longer: Vec<Vec<u8>> = Vec::new();
        for s in &all {
            for v in 0..symbols {
                let mut t = s.clone();
                t.push(v);
                longer.push(t);
            }
        }
        all = longer;
    }
    all
}

#[test]
fn vote_matches_counting_on_all_short_streams() {
    for length in 0..8 {
        for s in streams(3, length) {
            assert_eq!(majority_by_count(&s), boyer_moore(&s).copied(), "{:?}", s);
        }
    }
}

#[test]
fn collapse_matches_counting_on_all_short_streams() {
    for length in 0..8 {
        for s in streams(3, length) {
            assert_eq!(majority_by_count(&s), fischer_salzberg(&s).copied(), "{:?}", s);
        }
    }
}

#[test]
fn searches_agree_on_all_short_streams() {
    for length in 0..9 {
        for s in streams(3, length) {
            assert_eq!(boyer_moore(&s), fischer_salzberg(&s), "{:?}", s);
        }
    }
}

#[test]
fn half_behind_the_first_position_finds_nothing() {
    let mut met = 0;
    for length in 0..9 {
        for s in streams(3, length) {
            if late_half_by_count(&s).is_some() {
                met += 1;
                assert_eq!(None, boyer_moore(&s), "{:?}", s);
                assert_eq!(None, fischer_salzberg(&s), "{:?}", s);
            }
        }
    }
    assert!(met > 0);
}

#[test]
fn searches_match_counting_on_streams_of_two_symbols() {
    for length in 0..13 {
        for s in streams(2, length) {
            let majority = majority_by_count(&s);
            assert_eq!(majority, boyer_moore(&s).copied(), "{:?}", s);
            assert_eq!(majority, fischer_salzberg(&s).copied(), "{:?}", s);
        }
    }
}

#[test]
fn searches_agree_on_streams_of_odd_length() {
    for length in [1usize, 3, 5, 7, 9] {
        for s in streams(3, length) {
            assert_eq!(boyer_moore(&s), fischer_salzberg(&s), "{:?}", s);
        }
    }
}

#[test]
fn majority_found_in_any_arrangement() {
    let arrangements: Vec<Vec<u8>> = vec![
        vec![7, 7, 7, 1, 2],
        vec![1, 2, 7, 7, 7],
        vec![7, 1, 7, 2, 7],
        vec![1, 7, 7, 7, 2],
        vec![1, 7, 2, 7, 7],
        vec![7, 7, 1, 2, 7],
    ];
    for s in arrangements {
        assert_eq!(Some(&7), boyer_moore(&s), "{:?}", s);
        assert_eq!(Some(&7), fischer_salzberg(&s), "{:?}", s);
    }
}

#[test]
fn single_element_of_any_value() {
    for x in [0u8, 1, 77, 255] {
        let s = vec![x];
        assert_eq!(Some(&x), boyer_moore(&s));
        assert_eq!(Some(&x), fischer_salzberg(&s));
    }
}

#[test]
fn all_elements_equal() {
    let s = vec![9; 40];
    assert_eq!(Some(&9), boyer_moore(&s));
    assert_eq!(Some(&9), fischer_salzberg(&s));
}

#[test]
fn half_is_not_a_majority_for_the_vote() {
    assert_eq!(None, boyer_moore(&[1, 2]));
    assert_eq!(None, boyer_moore(&[2, 1]));
    assert_eq!(None, boyer_moore(&[1, 1, 2, 2]));
    assert_eq!(None, boyer_moore(&[1, 2, 1, 2]));
    assert_eq!(None, boyer_moore(&[1, 2, 3, 3]));
    assert_eq!(None, boyer_moore(&[5, 5, 5, 1, 2, 3]));
}

#[test]
fn half_is_not_a_majority_for_the_collapse() {
    assert_eq!(None, fischer_salzberg(&[1, 2]));
    assert_eq!(None, fischer_salzberg(&[2, 1]));
    assert_eq!(None, fischer_salzberg(&[1, 1, 2, 2]));
    assert_eq!(None, fischer_salzberg(&[1, 2, 1, 2]));
    assert_eq!(None, fischer_salzberg(&[1, 2, 3, 3]));
    assert_eq!(None, fischer_salzberg(&[1, 3, 3, 2]));
    assert_eq!(None, fischer_salzberg(&[1, 3, 2, 3]));
    assert_eq!(None, fischer_salzberg(&[3, 1, 2, 3]));
    assert_eq!(None, fischer_salzberg(&[3, 3, 1, 2]));
    assert_eq!(None, fischer_salzberg(&[5, 5, 5, 1, 2, 3]));
    assert_eq!(None, fischer_salzberg(&[1, 2, 1, 3]));
}

#[test]
fn collapse_finds_a_majority_by_one_pending_copy() {
    assert_eq!(Some(&2), fischer_salzberg(&[1, 2, 2]));
    assert_eq!(Some(&2), fischer_salzberg(&[2, 2, 1]));
    assert_eq!(Some(&3), fischer_salzberg(&[1, 3, 3, 2, 3]));
    assert_eq!(Some(&1), fischer_salzberg(&[1, 2, 1]));
}

#[test]
fn no_majority_among_distinct_elements() {
    let s: Vec<u32> = (0..31).collect();
    assert_eq!(None, boyer_moore(&s));
    assert_eq!(None, fischer_salzberg(&s));
}

#[test]
fn majority_by_one_position() {
    let mut s: Vec<u32> = Vec::new();
    for i in 0..50 {
        s.push(i);
    }
    for _ in 0..51 {
        s.push(1000);
    }
    assert_eq!(Some(&1000), boyer_moore(&s));
    assert_eq!(Some(&1000), fischer_salzberg(&s));
    s.reverse();
    assert_eq!(Some(&1000), boyer_moore(&s));
    assert_eq!(Some(&1000), fischer_salzberg(&s));
}

#[test]
fn vote_gives_up_early_and_late() {
    assert_eq!(None, boyer_moore(&[1, 2, 3, 4, 4]));
    assert_eq!(None, boyer_moore(&[4, 4, 1, 2, 3, 1, 4]));
    assert_eq!(Some(&4), boyer_moore(&[4, 4, 1, 2, 4, 1, 4]));
}

#[test]
fn long_runs_go_through_the_bucket() {
    let s = vec![1, 1, 1, 1, 2, 2, 2, 3, 1];
    assert_eq!(Some(&1), fischer_salzberg(&s));
    let t = vec![2, 2, 2, 1, 1, 1, 1, 3, 3];
    assert_eq!(None, fischer_salzberg(&t));
    let u = vec![2, 2, 2, 2, 2, 1, 1, 1, 1];
    assert_eq!(Some(&2), fischer_salzberg(&u));
}

#[test]
fn repeated_calls_return_the_same() {
    let s = vec![1, 1, 4, 5, 6, 4, 4, 4, 8, 4, 4];
    assert_eq!(boyer_moore(&s), boyer_moore(&s));
    assert_eq!(fischer_salzberg(&s), fischer_salzberg(&s));
    let t = vec![3, 6, 3, 4, 3, 3, 7, 4, 8, 5, 6];
    assert_eq!(boyer_moore(&t), boyer_moore(&t));
    assert_eq!(fischer_salzberg(&t), fischer_salzberg(&t));
    assert_eq!(s, vec![1, 1, 4, 5, 6, 4, 4, 4, 8, 4, 4]);
}

#[test]
fn elements_need_not_be_copied() {
    let s: Vec<String> = vec![
        String::from("b"),
        String::from("a"),
        String::from("a"),
        String::from("c"),
        String::from("a"),
    ];
    let expected = String::from("a");
    assert_eq!(Some(&expected), boyer_moore(&s));
    assert_eq!(Some(&expected), fischer_salzberg(&s));
}

#[test]
fn result_is_the_candidate_among_equal_elements() {
    let s = vec![
        Keyed { key: 1, tag: 10 },
        Keyed { key: 2, tag: 20 },
        Keyed { key: 1, tag: 30 },
        Keyed { key: 1, tag: 40 },
        Keyed { key: 3, tag: 50 },
    ];
    let voted = boyer_moore(&s).unwrap();
    assert_eq!(1, voted.key);
    assert_eq!(30, voted.tag);
    let collapsed = fischer_salzberg(&s).unwrap();
    assert_eq!(1, collapsed.key);
    assert_eq!(40, collapsed.tag);
}

#[test]
fn result_borrows_from_the_stream() {
    let s = vec![String::from("x"), String::from("x"), String::from("y")];
    let found: &String = boyer_moore(&s).unwrap();
    assert!(s.iter().any(|e| std::ptr::eq(e, found)));
    let found: &String = fischer_salzberg(&s).unwrap();
    assert!(s.iter().any(|e| std::ptr::eq(e, found)));
}

#[test]
fn tournament_finds_nothing() {
    let empty: Vec<isize> = Vec::new();
    assert_eq!(None, matula_tournament(&empty));
    assert_eq!(None, matula_tournament(&[3]));
    assert_eq!(None, matula_tournament(&[1, 1, 4, 5, 6, 4, 4, 4, 8, 4, 4]));
}

#[test]
fn tuple_keeps_its_parts() {
    let a = 5;
    let b = 6;
    let t = Tuple::new(&a, &b, 3);
    assert_eq!(5, *t.first);
    assert_eq!(6, *t.second);
    assert_eq!(3, t.count);
}
