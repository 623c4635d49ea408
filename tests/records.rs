use mess::lines::render_lines;
use mess::parser::{alnum_, is_valid_name, parse_line, parse_text};
use mess::types::{Disabled, Enabled, Line, Package};
use mess::workflow::{get_version_and_disable, split_reference};
use mess::lines::{Change, ChangeError};

#[test]
fn comment_line_is_ignored() {
    let text = "# some comment, no package here";
    match parse_line(text) {
        Line::Ignored(raw) => assert_eq!(raw, text),
        other => panic!("unexpected {:?}", other),
    }
    assert_eq!(parse_line(text).render(), text);
    assert_eq!(render_lines(&parse_text(text)), "# some comment, no package here\n");
}

#[test]
fn other_ignored_lines() {
    for text in ["", "   ", "[deps]", "foo = \"\"", "foo = 1.0", "foo = \"unterminated", "= \"1\""] {
        match parse_line(text) {
            Line::Ignored(raw) => assert_eq!(raw, text),
            other => panic!("{:?} parsed as {:?}", text, other),
        }
        assert_eq!(parse_line(text).render(), text);
    }
}

#[test]
fn enabled_line_parts() {
    match parse_line("  foo_1\t= \"~> 1.0\" # note") {
        Line::Enabled(e) => {
            assert_eq!(e.pre, "  ");
            assert_eq!(e.package.name, "foo_1");
            assert_eq!(e.package.version, "~> 1.0");
            assert_eq!(e.post, " # note");
            assert_eq!(e.render(), "  foo_1 = \"~> 1.0\" # note");
        }
        other => panic!("unexpected {:?}", other),
    }
}

#[test]
fn disabled_line_parts() {
    match parse_line("# -- foo=\"1.0\"") {
        Line::Disabled(d) => {
            assert_eq!(d.pre, "# -- ");
            assert_eq!(d.package.name, "foo");
            assert_eq!(d.package.version, "1.0");
            assert_eq!(d.post, "");
        }
        other => panic!("unexpected {:?}", other),
    }
}

#[test]
fn uppercase_start_is_disabled() {
    match parse_line("Foo = \"1\"") {
        Line::Disabled(d) => {
            assert_eq!(d.pre, "F");
            assert_eq!(d.package.name, "oo");
        }
        other => panic!("unexpected {:?}", other),
    }
}

#[test]
fn first_declaration_wins() {
    match parse_line("x a = \"1\" b = \"2\"") {
        Line::Disabled(d) => {
            assert_eq!(d.pre, "x ");
            assert_eq!(d.package.name, "a");
            assert_eq!(d.post, " b = \"2\"");
        }
        other => panic!("unexpected {:?}", other),
    }
}

#[test]
fn render_parse_render_is_stable() {
    for text in ["foo = \"1\"", "  foo=\"1\"  # x", "#foo   =\"v\"", "x y = \"2\" z = \"3\"", "Foo = \"1\""] {
        let once = parse_line(text).render();
        let twice = parse_line(&once).render();
        assert_eq!(once, twice);
    }
}

#[test]
fn text_lines_and_terminators() {
    let lines = parse_text("a = \"1\"\r\n# b = \"2\"\nplain");
    assert_eq!(lines.len(), 3);
    assert_eq!(render_lines(&lines), "a = \"1\"\n# b = \"2\"\nplain\n");
    assert_eq!(parse_text("").len(), 0);
    assert_eq!(parse_text("\n\n").len(), 2);
    assert_eq!(render_lines(&parse_text("x\r")), "x\r\n");
}

#[test]
fn package_update_reports_change() {
    let mut p = Package::new("foo", "1.0");
    assert!(!p.update("1.0"));
    assert!(p.update("2.0"));
    assert_eq!(p.version, "2.0");
    assert_eq!(p.render(), "foo = \"2.0\"");
}

#[test]
fn record_conversions() {
    let e = Enabled::new("  ", " # x", Package::new("foo", "1"));
    let d = e.disable();
    assert_eq!(d.pre, "# ");
    assert_eq!(d.render(), "# foo = \"1\" # x");
    let e = d.enable();
    assert_eq!(e.pre, "");
    assert_eq!(e.render(), "foo = \"1\" # x");
    let mut d = Disabled::new("// ".to_string(), "", Package::new("bar", "2"));
    assert!(d.update("3"));
    assert_eq!(d.render(), "// bar = \"3\"");
    let line = Line::Disabled(d).enable();
    assert_eq!(line.render(), "bar = \"3\"");
    let line = line.enable();
    assert_eq!(line.render(), "bar = \"3\"");
    let mut line = line.disable().disable();
    assert_eq!(line.render(), "# bar = \"3\"");
    assert!(line.update("4"));
    assert_eq!(line.render(), "# bar = \"4\"");
}

#[test]
fn name_characters() {
    assert!(alnum_('a') && alnum_('z') && alnum_('0') && alnum_('9') && alnum_('_'));
    assert!(!alnum_('A') && !alnum_('-') && !alnum_(' ') && !alnum_('"'));
    assert!(is_valid_name("foo_bar2"));
    assert!(!is_valid_name(""));
    assert!(!is_valid_name("Foo"));
    assert!(!is_valid_name("foo-bar"));
    assert!(!is_valid_name("foo = \"1\""));
}

#[test]
fn reference_splitting() {
    assert_eq!(split_reference("https://x/repo.git#dev"), ("https://x/repo.git".to_string(), Some("dev".to_string())));
    assert_eq!(split_reference("repo"), ("repo".to_string(), None));
    assert_eq!(split_reference("repo#a#b"), ("repo".to_string(), Some("a".to_string())));
    assert_eq!(split_reference("repo#"), ("repo".to_string(), Some("".to_string())));
}

#[test]
fn version_taken_and_disabled() {
    let mut lines = parse_text("foo = \"git@x:foo#main\"\n");
    let r = get_version_and_disable("foo", &mut lines);
    assert_eq!(r, Ok(("git@x:foo#main".to_string(), Change::Disabled)));
    assert_eq!(render_lines(&lines), "# foo = \"git@x:foo#main\"\n");
    let r = get_version_and_disable("foo", &mut lines);
    assert_eq!(r, Ok(("git@x:foo#main".to_string(), Change::AlreadyDisabled)));
    assert_eq!(get_version_and_disable("bar", &mut lines), Err(ChangeError::Missing));
}
