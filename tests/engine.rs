use mess::lines::{
    add_new_line, add_or_update_line, delete_lines, disable_existing_line,
    disable_line_if_present, enable_existing_line, enable_line_if_present, find_line, get_refs,
    render_lines, update_existing_line, Change, ChangeError, FindError,
};
use mess::parser::parse_text;

fn text_after<F>(text: &str, op: F) -> (Result<Change, ChangeError>, String)
where
    F: FnOnce(&mut Vec<mess::types::Line>) -> Result<Change, ChangeError>,
{
    let mut lines = parse_text(text);
    let r = op(&mut lines);
    (r, render_lines(&lines))
}

#[test]
fn add_or_update_replaces_version() {
    let (r, text) = text_after("foo = \"1.0\"", |l| add_or_update_line("foo", "2.0", l));
    assert_eq!(r, Ok(Change::Updated));
    assert!(r.as_ref().unwrap().needs_write());
    assert_eq!(text, "foo = \"2.0\"\n");
}

#[test]
fn add_or_update_same_version_still_writes() {
    let (r, text) = text_after("foo = \"1.0\"\n", |l| add_or_update_line("foo", "1.0", l));
    assert_eq!(r, Ok(Change::SameVersion));
    assert!(r.unwrap().needs_write());
    assert_eq!(text, "foo = \"1.0\"\n");
}

#[test]
fn add_or_update_appends_when_missing() {
    let (r, text) = text_after("# header\nfoo = \"1.0\"\n", |l| add_or_update_line("bar", "0.2", l));
    assert_eq!(r, Ok(Change::Added));
    assert_eq!(text, "# header\nfoo = \"1.0\"\nbar = \"0.2\"\n");
}

#[test]
fn add_or_update_keeps_disabled_and_decoration() {
    let (r, text) =
        text_after("  ## foo = \"1.0\" # pinned\n", |l| add_or_update_line("foo", "2.0", l));
    assert_eq!(r, Ok(Change::Updated));
    assert_eq!(text, "  ## foo = \"2.0\" # pinned\n");
}

#[test]
fn enable_existing_drops_marker() {
    let (r, text) = text_after("# foo = \"1.0\"\n", |l| enable_existing_line("foo", l));
    assert_eq!(r, Ok(Change::Enabled));
    assert_eq!(text, "foo = \"1.0\"\n");
}

#[test]
fn add_new_to_empty_file() {
    let (r, text) = text_after("", |l| add_new_line("bar", "0.1", l));
    assert_eq!(r, Ok(Change::Added));
    assert_eq!(text, "bar = \"0.1\"\n");
}

#[test]
fn add_new_refuses_existing() {
    let before = "foo = \"1.0\"\n";
    let (r, text) = text_after(before, |l| add_new_line("foo", "2.0", l));
    assert_eq!(r, Err(ChangeError::AlreadyExists));
    assert_eq!(text, before);
    let (r, text) = text_after("# foo = \"1.0\"\n", |l| add_new_line("foo", "2.0", l));
    assert_eq!(r, Err(ChangeError::AlreadyExists));
    assert_eq!(text, "# foo = \"1.0\"\n");
}

#[test]
fn add_new_refuses_duplicates() {
    let before = "foo = \"1\"\n# foo = \"2\"\n";
    let (r, text) = text_after(before, |l| add_new_line("foo", "3", l));
    assert_eq!(r, Err(ChangeError::OccursMany(2)));
    assert_eq!(text, before);
}

#[test]
fn update_existing_refuses_duplicates() {
    let before = "foo = \"1.0\"\nfoo = \"1.0\"\n";
    let (r, text) = text_after(before, |l| update_existing_line("foo", "2.0", l));
    assert_eq!(r, Err(ChangeError::OccursMany(2)));
    assert_eq!(text, before);
}

#[test]
fn update_existing_refuses_missing() {
    let (r, text) = text_after("baz = \"1\"\n", |l| update_existing_line("foo", "2.0", l));
    assert_eq!(r, Err(ChangeError::Missing));
    assert_eq!(text, "baz = \"1\"\n");
}

#[test]
fn update_existing_changes_version() {
    let (r, text) = text_after("a = \"1\"\nfoo = \"1.0\"\n", |l| update_existing_line("foo", "2.0", l));
    assert_eq!(r, Ok(Change::Updated));
    assert_eq!(text, "a = \"1\"\nfoo = \"2.0\"\n");
}

#[test]
fn delete_removes_only_that_package() {
    let mut lines = parse_text("foo = \"1.0\"\nbaz = \"3.0\"\n");
    assert_eq!(delete_lines("foo", &mut lines), 1);
    assert_eq!(render_lines(&lines), "baz = \"3.0\"\n");
}

#[test]
fn delete_removes_every_record() {
    let mut lines = parse_text("foo = \"1\"\n# x\n# foo = \"2\"\nfoo=\"3\"\n");
    assert_eq!(delete_lines("foo", &mut lines), 3);
    assert_eq!(render_lines(&lines), "# x\n");
    assert_eq!(delete_lines("foo", &mut lines), 0);
    assert_eq!(render_lines(&lines), "# x\n");
}

#[test]
fn enable_of_enabled_is_noop() {
    let (r, text) = text_after("  foo = \"1\" # keep\n", |l| enable_existing_line("foo", l));
    assert_eq!(r, Ok(Change::AlreadyEnabled));
    assert!(!r.unwrap().needs_write());
    assert_eq!(text, "  foo = \"1\" # keep\n");
    let (r, _) = text_after("  foo = \"1\"\n", |l| enable_line_if_present("foo", l));
    assert_eq!(r, Ok(Change::AlreadyEnabled));
}

#[test]
fn disable_of_disabled_is_noop() {
    let (r, text) = text_after("// foo = \"1\"\n", |l| disable_existing_line("foo", l));
    assert_eq!(r, Ok(Change::AlreadyDisabled));
    assert_eq!(text, "// foo = \"1\"\n");
    let (r, text) = text_after("// foo = \"1\"\n", |l| disable_line_if_present("foo", l));
    assert_eq!(r, Ok(Change::AlreadyDisabled));
    assert_eq!(text, "// foo = \"1\"\n");
}

#[test]
fn disable_puts_canonical_marker() {
    let (r, text) = text_after("  foo = \"1\" # keep\n", |l| disable_existing_line("foo", l));
    assert_eq!(r, Ok(Change::Disabled));
    assert_eq!(text, "# foo = \"1\" # keep\n");
}

#[test]
fn enable_after_disable_keeps_package() {
    let mut lines = parse_text("\tfoo   =  \"git#main\"  tail\n");
    assert_eq!(disable_existing_line("foo", &mut lines), Ok(Change::Disabled));
    assert_eq!(enable_existing_line("foo", &mut lines), Ok(Change::Enabled));
    assert_eq!(render_lines(&lines), "foo = \"git#main\"  tail\n");
}

#[test]
fn missing_and_absent_outcomes() {
    let (r, _) = text_after("", |l| disable_existing_line("foo", l));
    assert_eq!(r, Err(ChangeError::Missing));
    let (r, _) = text_after("", |l| enable_existing_line("foo", l));
    assert_eq!(r, Err(ChangeError::Missing));
    let (r, text) = text_after("x\n", |l| disable_line_if_present("foo", l));
    assert_eq!(r, Ok(Change::NotPresent));
    assert!(!r.unwrap().needs_write());
    assert_eq!(text, "x\n");
    let (r, _) = text_after("x\n", |l| enable_line_if_present("foo", l));
    assert_eq!(r, Ok(Change::NotPresent));
}

#[test]
fn ambiguous_outcomes() {
    let three = "foo = \"1\"\n#foo = \"2\"\nfoo = \"3\"\n";
    let (r, text) = text_after(three, |l| disable_line_if_present("foo", l));
    assert_eq!(r, Err(ChangeError::OccursMany(3)));
    assert_eq!(text, three);
    let (r, _) = text_after(three, |l| enable_line_if_present("foo", l));
    assert_eq!(r, Err(ChangeError::OccursMany(3)));
    let (r, _) = text_after(three, |l| add_or_update_line("foo", "4", l));
    assert_eq!(r, Err(ChangeError::OccursMany(3)));
}

#[test]
fn lookup_outcomes() {
    let lines = parse_text("# comment\nfoo = \"1\"\nbar = \"2\"\n# bar = \"3\"\n");
    assert_eq!(get_refs(&lines, "bar"), vec![2, 3]);
    assert_eq!(get_refs(&lines, "comment"), Vec::<usize>::new());
    match find_line(&lines, "foo") {
        Ok((line, index)) => {
            assert_eq!(index, 1);
            assert_eq!(line.render(), "foo = \"1\"");
        }
        Err(e) => panic!("unexpected {:?}", e),
    }
    assert_eq!(find_line(&lines, "bar").err(), Some(FindError::OccursMany(2)));
    assert_eq!(find_line(&lines, "baz").err(), Some(FindError::Missing));
}

#[test]
fn lookup_matches_whole_names() {
    let lines = parse_text("foobar = \"1\"\nfoo_bar = \"2\"\n");
    assert_eq!(find_line(&lines, "foo").err(), Some(FindError::Missing));
}
