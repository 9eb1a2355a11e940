//! Texts, numbers, sets, maps and sorting.

use argus_lasso::binary::{Binary, Single, DOUBLE, SINGLE};
use argus_lasso::cpulist::{cpulist_to_set, cpuset_to_cpulist};
use argus_lasso::idmap::IdMap;
use argus_lasso::idset::IdSet;
use argus_lasso::lower::contains_ignoring_case;
use argus_lasso::namemap::{NameMap, TextKey};
use argus_lasso::number::{
    decimal, decimal_int, push_hundredths, push_tenths, push_thousandths, read_i64, read_u32,
    round_wide,
};
use argus_lasso::ring::push_capped;
use argus_lasso::sort::sorted_places;
use argus_lasso::text::{
    chars_of, contains_text, cut_text, joined, same_texts, split_at_char, text_lines, text_of,
    trimmed_text, words_of,
};
use std::collections::VecDeque;

fn chars(s: &str) -> Vec<char> {
    s.chars().collect()
}

#[test]
fn texts_are_trimmed_and_split() {
    assert_eq!(trimmed_text(" \t a b \u{3000}\n"), "a b");
    let parts = split_at_char(&chars("a,,b"), ',');
    assert_eq!(parts, [chars("a"), chars(""), chars("b")]);
    assert_eq!(split_at_char(&[], ','), [chars("")]);
    assert_eq!(text_lines("x\r\ny\n"), [chars("x"), chars("y")]);
    assert_eq!(text_lines(""), Vec::<Vec<char>>::new());
    assert_eq!(words_of(&chars("  one  two ")), [chars("one"), chars("two")]);
    let (a, b) = cut_text(&chars("key: v: w"), ": ").unwrap();
    assert_eq!((text_of(&a), text_of(&b)), ("key".into(), "v: w".into()));
    assert!(cut_text(&chars("none"), ": ").is_none());
    assert_eq!(joined(&vec!["a".into(), "b".into()], ", "), "a, b");
    assert!(contains_text("steamapps/common", "apps"));
    assert!(contains_text("anything", ""));
    assert!(!contains_text("ab", "abc"));
    assert!(same_texts(&vec!["a".into()], &vec!["a".into()]));
    assert!(!same_texts(&vec!["a".into()], &vec!["b".into()]));
    assert_eq!(chars_of("äö"), chars("äö"));
}

#[test]
fn case_is_ignored() {
    assert!(contains_ignoring_case("ÄPFEL und Birnen", "äpfel"));
    assert!(contains_ignoring_case("Firefox", "FOX"));
    assert!(!contains_ignoring_case("Firefox", "chrome"));
}

#[test]
fn numbers_are_written_and_read_back() {
    for n in [0u64, 7, 10, 4294967295, u64::MAX] {
        assert_eq!(decimal(n), n.to_string());
    }
    for n in [0i64, -1, 42, i64::MIN, i64::MAX] {
        assert_eq!(decimal_int(n), n.to_string());
        assert_eq!(read_i64(&chars(&n.to_string())), Some(n));
    }
    assert_eq!(read_u32(&chars("+5")), Some(5));
    assert_eq!(read_u32(&chars("4294967296")), None);
    assert_eq!(read_u32(&chars("")), None);
    assert_eq!(read_u32(&chars("-1")), None);
    assert_eq!(read_i64(&chars("9223372036854775808")), None);
}

#[test]
fn decimal_places_are_written() {
    let mut s = String::new();
    push_tenths(&mut s, 105);
    s.push(' ');
    push_hundredths(&mut s, 105);
    s.push(' ');
    push_thousandths(&mut s, 7);
    assert_eq!(s, "10.5 1.05 0.007");
}

#[test]
fn rounding_takes_ties_to_even() {
    assert_eq!(round_wide(25, 10), 2);
    assert_eq!(round_wide(35, 10), 4);
    assert_eq!(round_wide(36, 10), 4);
    assert_eq!(round_wide(u128::MAX, 1), u128::MAX);
}

fn next(seed: &mut u64) -> u64 {
    *seed = seed.wrapping_mul(6_364_136_223_846_793_005).wrapping_add(1_442_695_040_888_963_407);
    *seed >> 16
}

fn as_double(b: Binary) -> f64 {
    let size = b.mant as f64 * 2f64.powi(b.exp as i32);
    if b.neg {
        -size
    } else {
        size
    }
}

#[test]
fn binary_numbers_calculate_as_the_processor_does() {
    let mut seed = 42;
    for i in 0..2000u32 {
        let a = next(&mut seed) >> (i % 44);
        let b = (next(&mut seed) >> ((i / 3) % 44)) + 1;
        let (x, y) = (Binary::double(a, 1000), Binary::double(b, 7));
        let (fx, fy) = (a as f64 / 1000.0, b as f64 / 7.0);
        assert_eq!((as_double(x), as_double(y)), (fx, fy));
        assert_eq!(as_double(x.plus(y, DOUBLE)), fx + fy);
        assert_eq!(as_double(x.minus(y, DOUBLE)), fx - fy);
        assert_eq!(as_double(x.times(y, DOUBLE)), fx * fy);
        assert_eq!(as_double(x.over(y, DOUBLE)), fx / fy);
        assert_eq!(x.is_less(y, DOUBLE), fx < fy);
        assert_eq!(as_double(x.narrowed(SINGLE)), fx as f32 as f64);
        let (s, t) = (Single::whole(a), Single::whole(b));
        let (fs, ft) = (a as f32, b as f32);
        assert_eq!(as_double(s.plus(t).get()), (fs + ft) as f64);
        assert_eq!(as_double(s.minus(t).get()), (fs - ft) as f64);
        assert_eq!(as_double(s.times(t).get()), (fs * ft) as f64);
        assert_eq!(as_double(s.over(t).get()), (fs / ft) as f64);
        assert_eq!(s.is_less(t), fs < ft);
    }
    let (tiny, huge) = (Binary::double(1, u64::MAX), Binary::double(u64::MAX, 1));
    assert_eq!(huge.plus(tiny, DOUBLE), huge);
    assert_eq!(huge.minus(tiny, DOUBLE), huge);
    assert_eq!(Binary::zero().plus(tiny, DOUBLE), tiny);
    assert_eq!(tiny.minus(tiny, DOUBLE), Binary::zero());
    assert_eq!(Single::of(-5, 2).get(), Binary::single(5, 2).negated());
}

#[test]
fn binary_numbers_are_rounded_to_parts() {
    assert_eq!(Binary::double(1_250_000, 1_000_000).parts(10), 12);
    assert_eq!(Binary::double(135, 100).parts(10), 14);
    assert_eq!(Binary::double(7, 2).whole_parts(1), 3);
    assert_eq!(Binary::double(7, 2).parts_above(1), 4);
    assert_eq!(Binary::double(3, 1).parts_above(1), 3);
    assert_eq!(Binary { neg: false, mant: 1, exp: -500 }.parts(1000), 0);
    assert_eq!(Binary { neg: false, mant: 1, exp: -500 }.parts_above(1000), 1);
    assert_eq!(Binary { neg: false, mant: 1, exp: 500 }.parts(1), u128::MAX);
    assert!(Binary::double(1, 2).is_apart(Binary::double(1, 4), Binary::double(1, 5), DOUBLE));
    assert!(!Binary::double(1, 2).is_apart(Binary::double(1, 2), Binary::double(1, 5), DOUBLE));
}

#[test]
fn binary_quotients_are_rounded_as_they_are_held() {
    for n in [1005u64, 1150, 2675, 45350, 45250, 1115, 8345, 999_995, 16_777_217_500] {
        let shown = format!("{:.2}", n as f64 / 1000.0);
        let mut s = String::new();
        push_hundredths(&mut s, Binary::double(n, 1000).parts(100));
        assert_eq!(s, shown);
        let shown = format!("{:.1}", n as f32 / 1000.0);
        let mut s = String::new();
        push_tenths(&mut s, Binary::single(n, 1000).parts(10));
        assert_eq!(s, shown);
    }
}

#[test]
fn sets_keep_their_members_in_order() {
    let mut s = IdSet::from_list(&[5, 1, 5, 3]);
    assert_eq!(s.items(), &vec![1, 3, 5]);
    assert!(!s.insert(3));
    assert!(s.insert(2));
    assert_eq!(s.len(), 4);
    let t = IdSet::first(3);
    assert_eq!(s.union(&t).items(), &vec![0, 1, 2, 3, 5]);
    assert_eq!(s.difference(&t).items(), &vec![3, 5]);
    assert_eq!(s.intersect(&t).items(), &vec![1, 2]);
    assert!(s.copy().same(&s));
    assert!(!s.same(&t));
}

#[test]
fn maps_keep_their_keys_in_order() {
    let mut m: IdMap<char> = IdMap::new();
    m.insert(4, 'd');
    m.insert(2, 'b');
    m.insert(4, 'x');
    assert_eq!(m.pairs(), &vec![(2, 'b'), (4, 'x')]);
    assert_eq!(m.get(4), Some(&'x'));
    assert_eq!(m.get(5), None);
    m.retain_keys(&IdSet::from_list(&[4, 9]));
    assert_eq!(m.keys().items(), &vec![4]);
    m.remove(4);
    assert!(m.is_empty());
}

#[test]
fn named_values_are_found_and_sorted() {
    let mut m: NameMap<u32> = NameMap::new();
    m.insert("b".into(), 2);
    m.insert("a".into(), 1);
    m.insert("b".into(), 3);
    assert_eq!(m.get("b"), Some(&3));
    assert_eq!(m.sorted_names(), ["a", "b"]);
    m.remove("a");
    assert_eq!(m.get("a"), None);
    assert_eq!(m.entries().len(), 1);
}

#[test]
fn cpu_lists_round_trip() {
    for list in ["", "0", "0-7", "0-7,16-23", "1,3,5", "0,2-4,9"] {
        let set = cpulist_to_set(list).unwrap();
        assert_eq!(cpuset_to_cpulist(&set), list);
    }
    assert_eq!(cpulist_to_set(" 2, 0-1 \n").unwrap().items(), &vec![0, 1, 2]);
    for bad in ["x", "1-", "3-x", "-"] {
        assert!(cpulist_to_set(bad).is_err(), "{bad}");
    }
}

#[test]
fn different_cpu_sets_have_different_lists() {
    let a = IdSet::from_list(&[1, 2, 4]);
    let b = IdSet::from_list(&[1, 2, 5]);
    assert_ne!(cpuset_to_cpulist(&a), cpuset_to_cpulist(&b));
}

#[test]
fn sorting_is_stable() {
    let keys: Vec<TextKey> = ["b", "a", "b", "a"]
        .iter()
        .map(|s| TextKey { text: chars(s) })
        .collect();
    assert_eq!(sorted_places(&keys), [1, 3, 0, 2]);
}

#[test]
fn rings_keep_the_newest() {
    let mut ring: VecDeque<u32> = VecDeque::new();
    for i in 0..10 {
        push_capped(&mut ring, i, 3);
    }
    assert_eq!(ring, [7, 8, 9]);
    push_capped(&mut ring, 10, 0);
    assert!(ring.is_empty());
}
