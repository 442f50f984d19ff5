use dirdump::block::{base_name, footer, header_for, shown_name};
use dirdump::dump::DumpBuilder;

#[test]
fn empty_walk_has_no_blocks() {
    let d = DumpBuilder::new(b"/tmp/dump.md".to_vec());
    let out = d.finish();
    assert_eq!(out, Vec::<u8>::new());
}

#[test]
fn single_file_block_exact() {
    let mut d = DumpBuilder::new(b"/tmp/dump.md".to_vec());
    let added = d.add_file(&b"/a/hi.txt".to_vec(), &b"abc".to_vec());
    assert!(added);
    let out = d.finish();
    assert_eq!(out, b"### hi.txt\n```\nabc\n```\n\n".to_vec());
}

#[test]
fn two_files_two_blocks_in_walk_order() {
    let mut d = DumpBuilder::new(b"/tmp/dump.md".to_vec());
    d.add_file(&b"/a/one.rs".to_vec(), &b"fn one() {}".to_vec());
    d.add_file(&b"/a/sub/two.rs".to_vec(), &b"fn two() {}".to_vec());
    let out = d.finish();
    let expected = [
        b"### one.rs\n```\nfn one() {}\n```\n\n".as_slice(),
        b"### two.rs\n```\nfn two() {}\n```\n\n".as_slice(),
    ]
    .concat();
    assert_eq!(out, expected);
}

#[test]
fn unreadable_file_adds_no_block_and_walk_goes_on() {
    let mut with_bad = DumpBuilder::new(b"/tmp/dump.md".to_vec());
    with_bad.add_file(&b"/a/first.txt".to_vec(), &b"first".to_vec());
    with_bad.add_unreadable(&b"/a/locked.txt".to_vec());
    with_bad.add_file(&b"/a/second.txt".to_vec(), &b"second".to_vec());

    let mut without_bad = DumpBuilder::new(b"/tmp/dump.md".to_vec());
    without_bad.add_file(&b"/a/first.txt".to_vec(), &b"first".to_vec());
    without_bad.add_file(&b"/a/second.txt".to_vec(), &b"second".to_vec());

    assert_eq!(with_bad.finish(), without_bad.finish());
}

#[test]
fn output_path_never_becomes_a_block() {
    let out_path = b"/a/dump.md".to_vec();
    let mut d = DumpBuilder::new(out_path.clone());
    assert!(!d.should_open(&out_path));
    d.add_file(&b"/a/kept.txt".to_vec(), &b"kept".to_vec());
    let added = d.add_file(&out_path, &b"old dump text".to_vec());
    assert!(!added);
    let out = d.finish();
    assert_eq!(out, b"### kept.txt\n```\nkept\n```\n\n".to_vec());
}

#[test]
fn should_open_other_paths() {
    let d = DumpBuilder::new(b"/a/dump.md".to_vec());
    assert!(d.should_open(&b"/a/other.md".to_vec()));
    assert!(d.should_open(&b"/a/dump.m".to_vec()));
    assert!(d.should_open(&b"/a/dump.mdd".to_vec()));
}

#[test]
fn empty_content_still_gets_a_block() {
    let mut d = DumpBuilder::new(b"/tmp/dump.md".to_vec());
    d.add_file(&b"/a/empty.txt".to_vec(), &Vec::new());
    let out = d.finish();
    assert_eq!(out, b"### empty.txt\n```\n\n```\n\n".to_vec());
}

#[test]
fn content_passes_verbatim_even_with_fences() {
    let content = b"no escaping:\n```\ninner fence\n```\nend\x00\xff".to_vec();
    let mut d = DumpBuilder::new(b"/tmp/dump.md".to_vec());
    d.add_file(&b"/a/tricky.md".to_vec(), &content);
    let out = d.finish();
    let mut expected = b"### tricky.md\n```\n".to_vec();
    expected.extend_from_slice(&content);
    expected.extend_from_slice(b"\n```\n\n");
    assert_eq!(out, expected);
}

#[test]
fn base_name_takes_suffix_after_last_slash() {
    assert_eq!(base_name(&b"a/b/c.txt".to_vec()), b"c.txt".to_vec());
    assert_eq!(base_name(&b"/c.txt".to_vec()), b"c.txt".to_vec());
    assert_eq!(base_name(&b"plain".to_vec()), b"plain".to_vec());
    assert_eq!(base_name(&b"dir/".to_vec()), Vec::<u8>::new());
    assert_eq!(base_name(&Vec::new()), Vec::<u8>::new());
}

#[test]
fn shown_name_falls_back_to_unknown() {
    assert_eq!(shown_name(&b"a/b/c.txt".to_vec()), b"c.txt".to_vec());
    assert_eq!(shown_name(&b"dir/".to_vec()), b"unknown".to_vec());
    assert_eq!(shown_name(&Vec::new()), b"unknown".to_vec());
}

#[test]
fn header_and_footer_shape() {
    assert_eq!(header_for(&b"x.rs".to_vec()), b"### x.rs\n```\n".to_vec());
    assert_eq!(footer(), b"\n```\n\n".to_vec());
}
