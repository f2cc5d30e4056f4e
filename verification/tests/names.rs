use kind2::name;

#[test]
fn name_single_letters() {
    assert_eq!(name(0), "a");
    assert_eq!(name(1), "b");
    assert_eq!(name(25), "z");
}

#[test]
fn name_two_letters() {
    assert_eq!(name(26), "aa");
    assert_eq!(name(27), "ab");
    assert_eq!(name(51), "az");
    assert_eq!(name(52), "ba");
    assert_eq!(name(701), "zz");
}

#[test]
fn name_three_letters() {
    assert_eq!(name(702), "aaa");
    assert_eq!(name(703), "aab");
    assert_eq!(name(18277), "zzz");
    assert_eq!(name(18278), "aaaa");
}
