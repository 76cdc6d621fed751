use char_iter::new;
use char_iter::try_new;

#[test]
fn smoke() {
    let v: Vec<char> = new('a', 'f').into_vec();
    assert_eq!(v, &['a', 'b', 'c', 'd', 'e', 'f']);
}

#[test]
fn smoke_rev() {
    let v: Vec<char> = new('a', 'f').into_rev_vec();
    assert_eq!(v, &['f', 'e', 'd', 'c', 'b', 'a']);
}

#[test]
fn smoke_size_hint() {
    let mut iter = new('a', 'f');
    assert_eq!(iter.size_hint(), (6, Some(6)));
    for i in (0..6).rev() {
        iter.next();
        assert_eq!(iter.size_hint(), (i, Some(i)));
    }
    iter.next();
    assert_eq!(iter.size_hint(), (0, Some(0)));
}

#[test]
fn smoke_rev_size_hint() {
    let mut iter = new('a', 'f');
    assert_eq!(iter.size_hint(), (6, Some(6)));
    for i in (0..6).rev() {
        iter.next_back();
        assert_eq!(iter.size_hint(), (i, Some(i)));
    }
    iter.next_back();
    assert_eq!(iter.size_hint(), (0, Some(0)));
}

#[test]
fn equal() {
    let v: Vec<char> = new('a', 'a').into_vec();
    assert_eq!(v, &['a']);
}

#[test]
fn equal_rev() {
    let v: Vec<char> = new('a', 'a').into_rev_vec();
    assert_eq!(v, &['a']);
}

#[test]
fn equal_size_hint() {
    let mut iter = new('a', 'a');
    assert_eq!(iter.size_hint(), (1, Some(1)));
    for i in (0..1).rev() {
        iter.next();
        assert_eq!(iter.size_hint(), (i, Some(i)));
    }
    iter.next();
    assert_eq!(iter.size_hint(), (0, Some(0)));
}

#[test]
fn equal_rev_size_hint() {
    let mut iter = new('a', 'a');
    assert_eq!(iter.size_hint(), (1, Some(1)));
    for i in (0..1).rev() {
        iter.next_back();
        assert_eq!(iter.size_hint(), (i, Some(i)));
    }
    iter.next_back();
    assert_eq!(iter.size_hint(), (0, Some(0)));
}

const S: char = '\u{D7FF}';
const E: char = '\u{E000}';

#[test]
fn surrogate() {
    let v: Vec<char> = new(S, E).into_vec();
    assert_eq!(v, &[S, E]);
}

#[test]
fn surrogate_rev() {
    let v: Vec<char> = new(S, E).into_rev_vec();
    assert_eq!(v, &[E, S]);
}

#[test]
fn surrogate_size_hint() {
    let mut iter = new(S, E);
    assert_eq!(iter.size_hint(), (2, Some(2)));
    for i in (0..2).rev() {
        iter.next();
        assert_eq!(iter.size_hint(), (i, Some(i)));
    }
    iter.next();
    assert_eq!(iter.size_hint(), (0, Some(0)));
}

#[test]
fn surrogate_rev_size_hint() {
    let mut iter = new(S, E);
    assert_eq!(iter.size_hint(), (2, Some(2)));
    for i in (0..2).rev() {
        iter.next_back();
        assert_eq!(iter.size_hint(), (i, Some(i)));
    }
    iter.next_back();
    assert_eq!(iter.size_hint(), (0, Some(0)));
}

#[test]
fn full_range() {
    let mut iter = new('\u{0}', '\u{10FFFF}');
    let mut count = 1_114_112 - 2048;
    assert_eq!(iter.size_hint(), (count, Some(count)));

    for i in (0..0xD800).chain(0xE000..0x10FFFF + 1) {
        let c = iter.next();
        assert_eq!(Some(::std::char::from_u32(i).unwrap()), c);
        count -= 1;
    }
    assert_eq!(count, 0);
    assert_eq!(iter.next(), None);
}

#[test]
fn invalid_is_refused() {
    assert!(try_new('b', 'a').is_none());
    assert!(try_new('a', 'b').is_some());
    assert!(try_new('a', 'a').is_some());
}

#[test]
fn exhausted_stays_exhausted() {
    let mut iter = new('x', 'y');
    assert_eq!(iter.next(), Some('x'));
    assert_eq!(iter.next_back(), Some('y'));
    for _ in 0..5 {
        assert_eq!(iter.next(), None);
        assert_eq!(iter.next_back(), None);
        assert_eq!(iter.size_hint(), (0, Some(0)));
    }
}

#[test]
fn interleaved_ends_meet() {
    let mut iter = new('\u{D7FD}', '\u{E002}');
    assert_eq!(iter.size_hint(), (6, Some(6)));
    assert_eq!(iter.next(), Some('\u{D7FD}'));
    assert_eq!(iter.next_back(), Some('\u{E002}'));
    assert_eq!(iter.size_hint(), (4, Some(4)));
    assert_eq!(iter.next(), Some('\u{D7FE}'));
    assert_eq!(iter.next(), Some('\u{D7FF}'));
    assert_eq!(iter.size_hint(), (2, Some(2)));
    assert_eq!(iter.next_back(), Some('\u{E001}'));
    assert_eq!(iter.next_back(), Some('\u{E000}'));
    assert_eq!(iter.size_hint(), (0, Some(0)));
    assert_eq!(iter.next(), None);
}

#[test]
fn window_inside_one_side_of_block() {
    let mut iter = new('\u{D7FF}', '\u{D7FF}');
    assert_eq!(iter.size_hint(), (1, Some(1)));
    assert_eq!(iter.next_back(), Some('\u{D7FF}'));
    assert_eq!(iter.next_back(), None);
    let iter = new('\u{E000}', '\u{E003}');
    assert_eq!(iter.size_hint(), (4, Some(4)));
    assert_eq!(iter.into_rev_vec(), vec!['\u{E003}', '\u{E002}', '\u{E001}', '\u{E000}']);
}

#[test]
fn bounds_are_first_and_last() {
    let v = new('\u{41}', '\u{10FFFF}').into_vec();
    assert_eq!(v[0], 'A');
    assert_eq!(*v.last().unwrap(), '\u{10FFFF}');
    assert_eq!(v.len(), 0x10FFFF - 0x41 + 1 - 2048);
    let mut r = new('\u{41}', '\u{10FFFF}').into_rev_vec();
    r.reverse();
    assert_eq!(r, v);
}

#[test]
fn accented_range_reversed() {
    let v: Vec<char> = new('à', 'æ').into_rev_vec();
    assert_eq!(v, &['æ', 'å', 'ä', 'ã', 'â', 'á', 'à']);
}

#[test]
fn len_matches_size_hint() {
    let mut iter = new('\u{D000}', '\u{E0FF}');
    assert_eq!(iter.len(), 0x800 + 0x100);
    iter.next();
    iter.next_back();
    assert_eq!(iter.len(), 0x800 + 0x100 - 2);
    assert_eq!(iter.size_hint(), (iter.len(), Some(iter.len())));
}
