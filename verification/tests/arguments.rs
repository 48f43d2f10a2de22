use cargo_exec::arguments::{
    contains_equal, group_exports, parse_options, split_groups, starts_with_dash, target_of,
    wrap_script, Groups, Options, Target, LEFT_ARGS, QUOTED_LEFT_ARGS, QUOTED_RIGHT_ARGS,
    RIGHT_ARGS,
};

fn raw(items: &[&str]) -> Vec<Vec<u8>> {
    items.iter().map(|s| s.as_bytes().to_vec()).collect()
}

#[test]
fn assignment_splits_at_the_first_equals() {
    assert_eq!(contains_equal(b"KEY=value"), Some((b"KEY".to_vec(), b"value".to_vec())));
    assert_eq!(contains_equal(b"A=b=c"), Some((b"A".to_vec(), b"b=c".to_vec())));
    assert_eq!(contains_equal(b"=x"), Some((Vec::new(), b"x".to_vec())));
    assert_eq!(contains_equal(b"x="), Some((b"x".to_vec(), Vec::new())));
    assert_eq!(contains_equal(b"="), Some((Vec::new(), Vec::new())));
}

#[test]
fn argument_without_equals_is_no_assignment() {
    assert_eq!(contains_equal(b"command"), None);
    assert_eq!(contains_equal(b""), None);
}

#[test]
fn assignment_keeps_bytes_that_are_no_text() {
    assert_eq!(contains_equal(&[0xff, b'=', 0xfe, 0x00]), Some((vec![0xff], vec![0xfe, 0x00])));
}

#[test]
fn assignment_targets() {
    assert_eq!(target_of(b"PWD"), Target::WorkingDirectory);
    assert_eq!(target_of(b"SHELL"), Target::Shell);
    assert_eq!(target_of(b"PATH"), Target::Variable);
    assert_eq!(target_of(b"pwd"), Target::Variable);
    assert_eq!(target_of(b"PWDX"), Target::Variable);
    assert_eq!(target_of(b"SHEL"), Target::Variable);
    assert_eq!(target_of(b""), Target::Variable);
}

#[test]
fn option_letters() {
    assert_eq!(
        parse_options("srw"),
        Options { shell: true, root: true, words: true, help: false, unknown: vec![] }
    );
    assert_eq!(
        parse_options("r"),
        Options { shell: false, root: true, words: false, help: false, unknown: vec![] }
    );
    assert_eq!(
        parse_options(""),
        Options { shell: false, root: false, words: false, help: false, unknown: vec![] }
    );
}

#[test]
fn unknown_letters_are_kept_in_order() {
    assert_eq!(
        parse_options("xsy-x"),
        Options { shell: true, root: false, words: false, help: false, unknown: vec!['x', 'y', '-', 'x'] }
    );
}

#[test]
fn help_ends_the_reading() {
    assert_eq!(
        parse_options("xrhsz"),
        Options { shell: false, root: true, words: false, help: true, unknown: vec!['x'] }
    );
    assert_eq!(
        parse_options("h"),
        Options { shell: false, root: false, words: false, help: true, unknown: vec![] }
    );
}

#[test]
fn flags_start_with_a_dash() {
    assert!(starts_with_dash(b"-x"));
    assert!(starts_with_dash(b"--"));
    assert!(starts_with_dash(b"-"));
    assert!(!starts_with_dash(b"x-"));
    assert!(!starts_with_dash(b""));
    assert!(!starts_with_dash(&[b'-', 0xff]));
}

#[test]
fn groups_around_the_separator() {
    let args = raw(&["-a", "b", "--", "c", "--", "d"]);
    let g = split_groups(&args);
    assert_eq!(g, Groups { left_end: 2, right_start: 3 });
    assert_eq!(&args[..g.left_end], &raw(&["-a", "b"])[..]);
    assert_eq!(&args[g.right_start..], &raw(&["c", "--", "d"])[..]);
}

#[test]
fn flag_without_separator_is_all_left() {
    let args = raw(&["-a", "b"]);
    assert_eq!(split_groups(&args), Groups { left_end: 2, right_start: 2 });
}

#[test]
fn separator_first_is_all_right() {
    let args = raw(&["--", "b", "c"]);
    assert_eq!(split_groups(&args), Groups { left_end: 0, right_start: 1 });
}

#[test]
fn separator_last_leaves_the_right_group_empty() {
    let args = raw(&["-a", "--"]);
    assert_eq!(split_groups(&args), Groups { left_end: 1, right_start: 2 });
}

#[test]
fn without_a_leading_flag_all_is_right() {
    let args = raw(&["a", "-b", "--", "c"]);
    assert_eq!(split_groups(&args), Groups { left_end: 0, right_start: 0 });
    assert_eq!(split_groups(&[]), Groups { left_end: 0, right_start: 0 });
    let args = vec![vec![b'-', 0xff], b"--".to_vec(), b"x".to_vec()];
    assert_eq!(split_groups(&args), Groups { left_end: 0, right_start: 0 });
}

#[test]
fn script_becomes_a_shell_function() {
    assert_eq!(wrap_script("echo \"$1\""), "f() { echo \"$1\" ; }; f \"$@\"");
    assert_eq!(wrap_script(""), "f() {  ; }; f \"$@\"");
}

#[test]
fn exported_names() {
    assert_eq!(LEFT_ARGS, "LEFT_ARGS");
    assert_eq!(RIGHT_ARGS, "RIGHT_ARGS");
    assert_eq!(QUOTED_LEFT_ARGS, "_LEFT_ARGS");
    assert_eq!(QUOTED_RIGHT_ARGS, "_RIGHT_ARGS");
}

#[test]
fn groups_are_joined_and_quoted() {
    let e = group_exports(&raw(&["-v", "a b", "--", "c\"d", "e"]));
    assert_eq!(e.left, b"-v a b".to_vec());
    assert_eq!(e.right, b"c\"d e".to_vec());
    assert_eq!(e.quoted_left, Some("\"-v\" \"a b\"".to_string()));
    assert_eq!(e.quoted_right, Some("\"c\\\"d\" \"e\"".to_string()));
}

#[test]
fn groups_without_a_leading_flag() {
    let e = group_exports(&raw(&["a", "--", "b"]));
    assert_eq!(e.left, Vec::<u8>::new());
    assert_eq!(e.right, b"a -- b".to_vec());
    assert_eq!(e.quoted_left, Some(String::new()));
    assert_eq!(e.quoted_right, Some("\"a\" \"--\" \"b\"".to_string()));
}

#[test]
fn group_with_bytes_that_are_no_text_is_joined_and_not_quoted() {
    let args = vec![b"-v".to_vec(), b"--".to_vec(), vec![0xff], b"x".to_vec()];
    let e = group_exports(&args);
    assert_eq!(e.left, b"-v".to_vec());
    assert_eq!(e.right, vec![0xff, b' ', b'x']);
    assert_eq!(e.quoted_left, Some("\"-v\"".to_string()));
    assert_eq!(e.quoted_right, None);
}

#[test]
fn no_arguments_export_empty_groups() {
    let e = group_exports(&[]);
    assert_eq!(e.left, Vec::<u8>::new());
    assert_eq!(e.right, Vec::<u8>::new());
    assert_eq!(e.quoted_left, Some(String::new()));
    assert_eq!(e.quoted_right, Some(String::new()));
}
