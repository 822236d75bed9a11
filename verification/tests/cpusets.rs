use cpubind::common::{
    CPU_SETSIZE, CPU_WORDS, CPU_WORD_BITS, EEXIST, EINTR, EINVAL, ESRCH,
};
use cpubind::cpuset::{from_range, parse_cpu_ranges, CpuSet};

fn set_of(cpus: &[usize]) -> CpuSet {
    let mut s = CpuSet::new();
    for &c in cpus {
        s.set(c);
    }
    s
}

#[test]
fn numbers_are_those_of_the_c_library() {
    assert_eq!(CPU_SETSIZE, libc::CPU_SETSIZE as usize);
    assert_eq!(CPU_WORDS * CPU_WORD_BITS, CPU_SETSIZE);
    assert_eq!(std::mem::size_of::<[u64; CPU_WORDS]>(), std::mem::size_of::<libc::cpu_set_t>());
    assert_eq!(ESRCH, libc::ESRCH);
    assert_eq!(EINTR, libc::EINTR);
    assert_eq!(EEXIST, libc::EEXIST);
    assert_eq!(EINVAL, libc::EINVAL);
}

#[test]
fn a_new_set_is_empty() {
    let s = CpuSet::new();
    assert_eq!(s.count(), 0);
    assert!(s.is_empty());
    assert_eq!(s.to_range_string(), "");
    assert!(s == CpuSet::default());
}

#[test]
fn setting_a_cpu_sets_its_bit() {
    let s = set_of(&[0, 63, 64, 1023]);
    assert_eq!(s.bits[0], 1 | 1 << 63);
    assert_eq!(s.bits[1], 1);
    assert_eq!(s.bits[15], 1 << 63);
    assert_eq!(s.count(), 4);
    assert!(s.is_set(63) && s.is_set(64) && !s.is_set(65));
}

#[test]
fn cpus_out_of_range_are_ignored() {
    let s = set_of(&[1024, 5000, usize::MAX]);
    assert!(s.is_empty());
    assert!(!s.is_set(1024));
    assert!(!s.is_set(usize::MAX));
}

#[test]
fn union_and_intersection() {
    let mut a = set_of(&[0, 1, 2, 100]);
    let b = set_of(&[2, 3, 100, 900]);
    assert_eq!(a.intersection(&b).to_range_string(), "2,100");
    a.or(&b);
    assert_eq!(a.to_range_string(), "0-3,100,900");
}

#[test]
fn narrowing_keeps_to_the_limit() {
    let want = set_of(&[1, 2, 3]);
    assert_eq!(want.narrow(&set_of(&[3, 4])).to_range_string(), "3");
    assert_eq!(want.narrow(&set_of(&[6, 7])).to_range_string(), "6-7");
    assert_eq!(want.narrow(&CpuSet::new()).to_range_string(), "");
}

#[test]
fn runs_join_across_words() {
    let s = set_of(&[62, 63, 64, 65, 127, 128, 200]);
    assert_eq!(s.to_range_string(), "62-65,127-128,200");
}

#[test]
fn the_last_cpu_ends_a_run() {
    assert_eq!(set_of(&[1021, 1022, 1023]).to_range_string(), "1021-1023");
    assert_eq!(set_of(&[0]).to_range_string(), "0");
    assert_eq!(set_of(&[0, 2, 4]).to_range_string(), "0,2,4");
}

#[test]
fn lists_are_parsed() {
    assert_eq!(parse_cpu_ranges("0-3,6-7", None).to_range_string(), "0-3,6-7");
    assert_eq!(from_range("5").to_range_string(), "5");
    assert_eq!(CpuSet::from_range("1,3").to_range_string(), "1,3");
    assert_eq!(parse_cpu_ranges("", None).count(), 0);
}

#[test]
fn commas_spaces_and_tabs_separate() {
    assert_eq!(parse_cpu_ranges("0 1 2 3 4 5", None).to_range_string(), "0-5");
    assert_eq!(parse_cpu_ranges("0, 2\t4-5", None).to_range_string(), "0,2,4-5");
    assert_eq!(parse_cpu_ranges(" ,,\t7,", None).to_range_string(), "7");
}

#[test]
fn ranges_may_be_reversed() {
    assert_eq!(parse_cpu_ranges("7-4", None).to_range_string(), "4-7");
}

#[test]
fn a_missing_upper_end_counts_as_the_lower() {
    assert_eq!(parse_cpu_ranges("3-", None).to_range_string(), "3");
    assert_eq!(parse_cpu_ranges("3-x", None).to_range_string(), "3");
    assert_eq!(parse_cpu_ranges("1-2-3", None).to_range_string(), "1");
}

#[test]
fn items_that_are_no_numbers_are_skipped() {
    assert_eq!(parse_cpu_ranges("x,4,-,-5,5x", None).to_range_string(), "4");
    assert_eq!(parse_cpu_ranges("99999999999999999999999,2", None).to_range_string(), "2");
}

#[test]
fn ranges_are_cut_at_the_last_cpu() {
    assert_eq!(parse_cpu_ranges("1020-5000", None).to_range_string(), "1020-1023");
    assert_eq!(parse_cpu_ranges("2000-3000", None).count(), 0);
    assert_eq!(parse_cpu_ranges("18446744073709551615", None).count(), 0);
}

#[test]
fn absent_cpus_are_left_out() {
    let present = set_of(&[0, 1, 2, 3]);
    assert_eq!(parse_cpu_ranges("2-7", Some(&present)).to_range_string(), "2-3");
    assert_eq!(parse_cpu_ranges("5", Some(&present)).count(), 0);
}

#[test]
fn a_set_is_read_back_from_its_text() {
    for text in ["", "0", "0-1023", "1,3,5,7-9", "63-64,500,1023"] {
        let s = parse_cpu_ranges(text, None);
        assert_eq!(s.to_range_string(), text);
        assert!(parse_cpu_ranges(&s.to_range_string(), None) == s);
    }
}

#[test]
fn different_sets_have_different_texts() {
    let a = set_of(&[1, 2]);
    let b = set_of(&[1, 3]);
    assert!(a != b);
    assert_ne!(a.to_range_string(), b.to_range_string());
}

#[test]
fn joined_lists_name_what_their_parts_name() {
    let mut a = from_range("0-2");
    a.or(&from_range("9"));
    assert!(from_range("0-2,9") == a);
}
