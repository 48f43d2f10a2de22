//! Reading the launcher's own argument vector: assignments, option letters,
//! the two groups of arguments around `--`, and the script handed to a shell.

use vstd::prelude::*;
use vstd::slice::{slice_subrange, slice_to_vec};
use vstd::string::StringExecFns;
use vstd::utf8::*;
use crate::quote::{
    all_text, decoded, join_os_strings, joined, quote_shell_args, quoted_all, raw, QuoteStyle,
};
use crate::text::decode;

verus! {

/// The byte `=`.
pub const EQUALS: u8 = 0x3d;

/// The byte `-`.
pub const DASH: u8 = 0x2d;

/// Splits `NAME=VALUE` at its first `=`; `None` where there is no `=`.
pub fn contains_equal(s: &[u8]) -> (r: Option<(Vec<u8>, Vec<u8>)>)
    ensures
        match r {
            None => forall|i: int| 0 <= i < s@.len() ==> s@[i] != EQUALS,
            Some((name, value)) => {
                &&& name@ + seq![EQUALS] + value@ == s@
                &&& forall|i: int| 0 <= i < name@.len() ==> name@[i] != EQUALS
            },
        },
{
    let n: usize = s.len();
    let mut i: usize = 0;
    while i < n && s[i] != EQUALS
        invariant
            i <= n,
            n == s@.len(),
            forall|j: int| 0 <= j < i ==> s@[j] != EQUALS,
        decreases n - i,
    {
        i += 1;
    }
    if i == n {
        return None;
    }
    let name = slice_to_vec(slice_subrange(s, 0, i));
    let value = slice_to_vec(slice_subrange(s, i + 1, n));
    assert(name@ + seq![EQUALS] + value@ =~= s@);
    Some((name, value))
}

/// What an assignment on the command line sets.
#[derive(Debug, Clone, Copy, PartialEq, Eq, Structural)]
pub enum Target {
    /// `PWD`: the directory to run in.
    WorkingDirectory,
    /// `SHELL`: the shell to hand a script to.
    Shell,
    /// Any other name: a variable of the command's environment.
    Variable,
}

/// The bytes of `PWD`.
pub open spec fn pwd_name() -> Seq<u8> {
    seq![0x50u8, 0x57u8, 0x44u8]
}

/// The bytes of `SHELL`.
pub open spec fn shell_name() -> Seq<u8> {
    seq![0x53u8, 0x48u8, 0x45u8, 0x4cu8, 0x4cu8]
}

/// What an assignment to `name` sets.
pub fn target_of(name: &[u8]) -> (r: Target)
    ensures
        r == if name@ == pwd_name() {
            Target::WorkingDirectory
        } else if name@ == shell_name() {
            Target::Shell
        } else {
            Target::Variable
        },
{
    if name.len() == 3 && name[0] == 0x50 && name[1] == 0x57 && name[2] == 0x44 {
        assert(name@ =~= pwd_name());
        Target::WorkingDirectory
    } else if name.len() == 5 && name[0] == 0x53 && name[1] == 0x48 && name[2] == 0x45 && name[3]
        == 0x4c && name[4] == 0x4c {
        assert(name@ =~= shell_name());
        Target::Shell
    } else {
        assert(name@ != pwd_name()) by {
            if name@.len() == 3 {
                assert(pwd_name()[0] == 0x50 && pwd_name()[1] == 0x57 && pwd_name()[2] == 0x44);
            }
        }
        assert(name@ != shell_name()) by {
            if name@.len() == 5 {
                assert(shell_name()[0] == 0x53 && shell_name()[1] == 0x48 && shell_name()[2]
                    == 0x45 && shell_name()[3] == 0x4c && shell_name()[4] == 0x4c);
            }
        }
        Target::Variable
    }
}

/// The options that a run of option letters sets.
pub ghost struct OptionsView {
    /// `s`: hand the command to a shell.
    pub shell: bool,
    /// `r`: run in the project's root directory.
    pub root: bool,
    /// `w`: split the command into words.
    pub words: bool,
    /// `h`: show the usage and stop.
    pub help: bool,
    /// The letters that are no option, in order.
    pub unknown: Seq<char>,
}

/// Reads option letters from left to right. The letter `h` ends the reading:
/// what follows it is not looked at.
pub open spec fn options_of(letters: Seq<char>) -> OptionsView
    decreases letters.len(),
{
    if letters.len() == 0 {
        OptionsView { shell: false, root: false, words: false, help: false, unknown: Seq::empty() }
    } else if letters[0] == 'h' {
        OptionsView { shell: false, root: false, words: false, help: true, unknown: Seq::empty() }
    } else {
        let rest = options_of(letters.skip(1));
        if letters[0] == 's' {
            OptionsView { shell: true, ..rest }
        } else if letters[0] == 'r' {
            OptionsView { root: true, ..rest }
        } else if letters[0] == 'w' {
            OptionsView { words: true, ..rest }
        } else {
            OptionsView { unknown: seq![letters[0]] + rest.unknown, ..rest }
        }
    }
}

/// The options of one invocation.
#[derive(Debug, PartialEq, Eq)]
pub struct Options {
    /// Hand the command to a shell.
    pub shell: bool,
    /// Run in the project's root directory.
    pub root: bool,
    /// Split the command into words.
    pub words: bool,
    /// Show the usage and stop.
    pub help: bool,
    /// The letters that are no option, in order.
    pub unknown: Vec<char>,
}

impl View for Options {
    type V = OptionsView;

    open spec fn view(&self) -> OptionsView {
        OptionsView {
            shell: self.shell,
            root: self.root,
            words: self.words,
            help: self.help,
            unknown: self.unknown@,
        }
    }
}

/// The options that `letters` sets: the text of an option argument after its
/// leading `-`.
pub fn parse_options(letters: &str) -> (r: Options)
    ensures
        r@ == options_of(letters@),
{
    let mut r = Options { shell: false, root: false, words: false, help: false, unknown: Vec::new() };
    let ghost whole = options_of(letters@);
    assert(letters@.skip(0) =~= letters@);
    for c in it: letters.chars()
        invariant
            it.seq() == letters@,
            whole == options_of(letters@),
            !r.help ==> ({
                let rest = options_of(letters@.skip(it.index()));
                &&& whole.shell == (r.shell || rest.shell)
                &&& whole.root == (r.root || rest.root)
                &&& whole.words == (r.words || rest.words)
                &&& whole.help == rest.help
                &&& whole.unknown == r.unknown@ + rest.unknown
            }),
            r.help ==> whole == r@,
    {
        let ghost before = r.unknown@;
        let ghost tail = options_of(letters@.skip(it.index() + 1));
        assert(letters@.skip(it.index()).skip(1) =~= letters@.skip(it.index() + 1));
        if !r.help {
            if c == 'h' {
                r.help = true;
                assert(before + Seq::<char>::empty() =~= before);
            } else if c == 's' {
                r.shell = true;
            } else if c == 'r' {
                r.root = true;
            } else if c == 'w' {
                r.words = true;
            } else {
                r.unknown.push(c);
                assert(before.push(c) + tail.unknown =~= before + (seq![c] + tail.unknown));
            }
        }
    }
    assert(r.unknown@ + Seq::<char>::empty() =~= r.unknown@);
    r
}

/// The argument is text that starts with `-`.
pub open spec fn is_flag(arg: Seq<u8>) -> bool {
    valid_utf8(arg) && arg.len() > 0 && arg[0] == DASH
}

/// The argument is `--`.
pub open spec fn is_separator(arg: Seq<u8>) -> bool {
    arg == seq![DASH, DASH]
}

/// Where the first `--` stands among `args`, or their number where none
/// does.
pub open spec fn separator_index(args: Seq<Vec<u8>>) -> int
    decreases args.len(),
{
    if args.len() == 0 || is_separator(args[0]@) {
        0
    } else {
        1 + separator_index(args.skip(1))
    }
}

/// A flag leads the arguments.
pub open spec fn flag_first(args: Seq<Vec<u8>>) -> bool {
    args.len() > 0 && is_flag(args[0]@)
}

/// The left group: where a flag leads, the arguments before the first `--`;
/// otherwise none.
pub open spec fn left_group(args: Seq<Vec<u8>>) -> Seq<Vec<u8>> {
    if flag_first(args) {
        args.take(separator_index(args))
    } else {
        Seq::empty()
    }
}

/// The right group: where a flag leads, the arguments after the first `--`;
/// otherwise all of them.
pub open spec fn right_group(args: Seq<Vec<u8>>) -> Seq<Vec<u8>> {
    if !flag_first(args) {
        args
    } else if separator_index(args) < args.len() {
        args.skip(separator_index(args) + 1)
    } else {
        Seq::empty()
    }
}

/// The two groups of a command's arguments, by positions among them.
#[derive(Debug, Clone, Copy, PartialEq, Eq, Structural)]
pub struct Groups {
    /// The left group is the arguments before this index.
    pub left_end: usize,
    /// The right group is the arguments from this index on.
    pub right_start: usize,
}

/// Tells whether `arg` is text that starts with `-`.
pub fn starts_with_dash(arg: &[u8]) -> (r: bool)
    ensures
        r == is_flag(arg@),
{
    arg.len() > 0 && arg[0] == DASH && decode(arg).is_ok()
}

/// Divides the arguments of a command into its left and its right group.
pub fn split_groups(args: &[Vec<u8>]) -> (r: Groups)
    ensures
        r.left_end <= r.right_start <= args@.len(),
        flag_first(args@) ==> r.left_end == separator_index(args@),
        !flag_first(args@) ==> r.left_end == 0,
        args@.take(r.left_end as int) == left_group(args@),
        args@.skip(r.right_start as int) == right_group(args@),
{
    let n: usize = args.len();
    if n == 0 || !starts_with_dash(args[0].as_slice()) {
        assert(args@.take(0) =~= Seq::<Vec<u8>>::empty());
        assert(args@.skip(0) =~= args@);
        return Groups { left_end: 0, right_start: 0 };
    }
    let mut i: usize = 0;
    assert(args@.skip(0) =~= args@);
    while i < n
        invariant
            i <= n,
            n == args@.len(),
            flag_first(args@),
            i + separator_index(args@.skip(i as int)) == separator_index(args@),
        decreases n - i,
    {
        let arg = &args[i];
        assert(args@.skip(i as int)[0] == args@[i as int]);
        assert(args@.skip(i as int).skip(1) =~= args@.skip(i as int + 1));
        if arg.len() == 2 && arg[0] == DASH && arg[1] == DASH {
            assert(arg@ =~= seq![DASH, DASH]);
            return Groups { left_end: i, right_start: i + 1 };
        }
        assert(!is_separator(arg@)) by {
            if arg@.len() == 2 {
                assert(seq![DASH, DASH][0] == DASH && seq![DASH, DASH][1] == DASH);
            }
        }
        i += 1;
    }
    assert(args@.skip(n as int) =~= Seq::<Vec<u8>>::empty());
    Groups { left_end: n, right_start: n }
}

/// The name under which the left group is handed on, joined.
pub const LEFT_ARGS: &'static str = "LEFT_ARGS";

/// The name under which the right group is handed on, joined.
pub const RIGHT_ARGS: &'static str = "RIGHT_ARGS";

/// The name under which the left group is handed on, quoted.
pub const QUOTED_LEFT_ARGS: &'static str = "_LEFT_ARGS";

/// The name under which the right group is handed on, quoted.
pub const QUOTED_RIGHT_ARGS: &'static str = "_RIGHT_ARGS";

/// What a script run by a shell is told of its arguments.
pub struct GroupExports {
    /// The left group joined by spaces, for `LEFT_ARGS`.
    pub left: Vec<u8>,
    /// The right group joined by spaces, for `RIGHT_ARGS`.
    pub right: Vec<u8>,
    /// The left group in double quotes, for `_LEFT_ARGS`; `None` where an
    /// argument of the group is not text.
    pub quoted_left: Option<String>,
    /// The right group in double quotes, for `_RIGHT_ARGS`; `None` where an
    /// argument of the group is not text.
    pub quoted_right: Option<String>,
}

/// The quoted form of a group, where all of it is text.
pub open spec fn quoted_group(group: Seq<Vec<u8>>) -> Option<Seq<char>> {
    if all_text(group) {
        Some(quoted_all(decoded(group), QuoteStyle::Double))
    } else {
        None
    }
}

/// The view of a quoted group.
pub open spec fn text_of(s: Option<String>) -> Option<Seq<char>> {
    match s {
        Some(s) => Some(s@),
        None => None,
    }
}

/// Joins and quotes the two groups of a command's arguments.
pub fn group_exports(args: &[Vec<u8>]) -> (r: GroupExports)
    ensures
        r.left@ == joined(raw(left_group(args@))),
        r.right@ == joined(raw(right_group(args@))),
        text_of(r.quoted_left) == quoted_group(left_group(args@)),
        text_of(r.quoted_right) == quoted_group(right_group(args@)),
{
    let groups = split_groups(args);
    let left = slice_subrange(args, 0, groups.left_end);
    let right = slice_subrange(args, groups.right_start, args.len());
    assert(left@ =~= left_group(args@));
    assert(right@ =~= right_group(args@));
    GroupExports {
        left: join_os_strings(left),
        right: join_os_strings(right),
        quoted_left: match quote_shell_args(left) {
            Ok(s) => Some(s),
            Err(_) => None,
        },
        quoted_right: match quote_shell_args(right) {
            Ok(s) => Some(s),
            Err(_) => None,
        },
    }
}

/// The script as the body of a shell function that is called with the
/// arguments of the shell.
pub open spec fn shell_function(script: Seq<char>) -> Seq<char> {
    "f() { "@ + script + " ; }; f \"$@\""@
}

/// Wraps `script` so that a shell runs it with the arguments it was given.
pub fn wrap_script(script: &str) -> (r: String)
    ensures
        r@ == shell_function(script@),
{
    let mut r = String::from_str("f() { ");
    r.append(script);
    r.append(" ; }; f \"$@\"");
    r
}

} // verus!
