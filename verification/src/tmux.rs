//! Where a popup of the terminal multiplexer goes and how large it is.

use crate::text::{spec_slices, spec_split, spec_split_once, split, split_once, str_eq};
use rand::distributions::Alphanumeric;
use vstd::prelude::*;
use vstd::string::StrSliceExecFns;
use vstd::string::StringExecFns;

verus! {

/// The edge of the screen that a popup is attached to.
#[derive(Debug, Clone, Copy, PartialEq, Eq, Structural)]
pub enum TmuxWindowDir {
    Center,
    Top,
    Bottom,
    Left,
    Right,
}

/// The direction that a name stands for, where it stands for one.
pub open spec fn spec_window_dir(name: Seq<char>) -> Option<TmuxWindowDir> {
    if name == "center"@ {
        Some(TmuxWindowDir::Center)
    } else if name == "top"@ {
        Some(TmuxWindowDir::Top)
    } else if name == "bottom"@ {
        Some(TmuxWindowDir::Bottom)
    } else if name == "left"@ {
        Some(TmuxWindowDir::Left)
    } else if name == "right"@ {
        Some(TmuxWindowDir::Right)
    } else {
        None
    }
}

impl TmuxWindowDir {
    /// Reads one of the five direction names; any other text is no direction.
    pub fn parse(value: &str) -> (dir: Option<TmuxWindowDir>)
        ensures
            dir == spec_window_dir(value@),
    {
        if str_eq(value, "center") {
            Some(TmuxWindowDir::Center)
        } else if str_eq(value, "top") {
            Some(TmuxWindowDir::Top)
        } else if str_eq(value, "bottom") {
            Some(TmuxWindowDir::Bottom)
        } else if str_eq(value, "left") {
            Some(TmuxWindowDir::Left)
        } else if str_eq(value, "right") {
            Some(TmuxWindowDir::Right)
        } else {
            None
        }
    }
}

/// Size and position of a popup, as the multiplexer takes them.
#[derive(Debug)]
pub struct TmuxOptions<'a> {
    pub width: &'a str,
    pub height: &'a str,
    pub x: &'a str,
    pub y: &'a str,
}

/// The four texts of a `TmuxOptions`.
pub struct TmuxLayout {
    pub width: Seq<char>,
    pub height: Seq<char>,
    pub x: Seq<char>,
    pub y: Seq<char>,
}

impl<'a> View for TmuxOptions<'a> {
    type V = TmuxLayout;

    open spec fn view(&self) -> TmuxLayout {
        TmuxLayout { width: self.width@, height: self.height@, x: self.x@, y: self.y@ }
    }
}

/// The direction name of a popup description: what stands before its first comma.
pub open spec fn spec_dir_part(value: Seq<char>) -> Seq<char> {
    match spec_split_once(value, ',') {
        Some((dir, _)) => dir,
        None => value,
    }
}

/// The size part of a popup description: what follows its first comma, or one
/// half where it has no comma.
pub open spec fn spec_size_part(value: Seq<char>) -> Seq<char> {
    match spec_split_once(value, ',') {
        Some((_, size)) => size,
        None => "50%"@,
    }
}

/// Height and width that a size part gives for a direction.
///
/// Two sizes are read as width and height for a popup in the centre or at a
/// side, and as height and width for one at the top or bottom. A single size
/// is the extent along the edge the popup leaves free; the other extent is full.
pub open spec fn spec_extent(dir: TmuxWindowDir, size: Seq<char>) -> (Seq<char>, Seq<char>) {
    match spec_split_once(size, ',') {
        Some((lhs, rhs)) => match dir {
            TmuxWindowDir::Center | TmuxWindowDir::Left | TmuxWindowDir::Right => (rhs, lhs),
            TmuxWindowDir::Top | TmuxWindowDir::Bottom => (lhs, rhs),
        },
        None => match dir {
            TmuxWindowDir::Left | TmuxWindowDir::Right => ("100%"@, size),
            TmuxWindowDir::Top | TmuxWindowDir::Bottom => (size, "100%"@),
            TmuxWindowDir::Center => (size, size),
        },
    }
}

/// Horizontal and vertical anchor of a popup in a direction.
pub open spec fn spec_anchor(dir: TmuxWindowDir) -> (Seq<char>, Seq<char>) {
    match dir {
        TmuxWindowDir::Center => ("C"@, "C"@),
        TmuxWindowDir::Top => ("C"@, "0%"@),
        TmuxWindowDir::Bottom => ("C"@, "100%"@),
        TmuxWindowDir::Left => ("0%"@, "C"@),
        TmuxWindowDir::Right => ("100%"@, "C"@),
    }
}

/// The layout that a popup description stands for, where its direction is known.
pub open spec fn spec_layout(value: Seq<char>) -> Option<TmuxLayout> {
    match spec_window_dir(spec_dir_part(value)) {
        Some(dir) => {
            let (height, width) = spec_extent(dir, spec_size_part(value));
            let (x, y) = spec_anchor(dir);
            Some(TmuxLayout { width, height, x, y })
        },
        None => None,
    }
}

impl<'a> TmuxOptions<'a> {
    /// Reads a popup description `dir[,size[,size]]`.
    ///
    /// Gives nothing exactly where the direction is none of the five names.
    pub fn parse(value: &'a str) -> (opts: Option<TmuxOptions<'a>>)
        ensures
            match opts {
                Some(o) => spec_layout(value@) == Some(o@),
                None => spec_layout(value@) is None,
            },
    {
        let (raw_dir, size) = match split_once(value, ',') {
            Some((d, s)) => (d, s),
            None => (value, "50%"),
        };
        let dir = match TmuxWindowDir::parse(raw_dir) {
            Some(d) => d,
            None => { return None; },
        };
        let (height, width) = match split_once(size, ',') {
            Some((lhs, rhs)) => match dir {
                TmuxWindowDir::Center | TmuxWindowDir::Left | TmuxWindowDir::Right => (rhs, lhs),
                TmuxWindowDir::Top | TmuxWindowDir::Bottom => (lhs, rhs),
            },
            None => match dir {
                TmuxWindowDir::Left | TmuxWindowDir::Right => ("100%", size),
                TmuxWindowDir::Top | TmuxWindowDir::Bottom => (size, "100%"),
                TmuxWindowDir::Center => (size, size),
            },
        };
        let (x, y) = match dir {
            TmuxWindowDir::Center => ("C", "C"),
            TmuxWindowDir::Top => ("C", "0%"),
            TmuxWindowDir::Bottom => ("C", "100%"),
            TmuxWindowDir::Left => ("0%", "C"),
            TmuxWindowDir::Right => ("100%", "C"),
        };
        Some(TmuxOptions { height, width, x, y })
    }

    /// The layout of a popup description whose direction is one of the five names.
    pub fn from(value: &'a String) -> (opts: TmuxOptions<'a>)
        requires
            spec_window_dir(spec_dir_part(value@)) is Some,
        ensures
            spec_layout(value@) == Some(opts@),
    {
        TmuxOptions::parse(value.as_str()).expect("Invalid tmux window dir")
    }
}

/// Whether `c` is an ASCII letter or digit.
pub open spec fn spec_is_alphanumeric(c: char) -> bool {
    ('a' <= c && c <= 'z') || ('A' <= c && c <= 'Z') || ('0' <= c && c <= '9')
}

/// Draws `count` characters from `rand::thread_rng()` with the distribution
/// `rand::distributions::Alphanumeric`.
///
/// Not proved. Claimed of it: as many characters come back as were asked
/// for, and each is an ASCII letter or digit, which is what the
/// distribution is documented to yield. Which ones they are is open.
#[verifier::external_body]
fn random_alphanumeric(count: usize) -> (drawn: String)
    ensures
        drawn@.len() == count,
        forall|i: int| 0 <= i < drawn@.len() ==> spec_is_alphanumeric(#[trigger] drawn@[i]),
{
    rand::Rng::sample_iter(rand::thread_rng(), &Alphanumeric).take(count).map(char::from).collect()
}

/// The name of the directory in which a popup leaves its output, for a
/// given suffix.
pub fn temp_dir_name_with(suffix: &str) -> (name: String)
    ensures
        name@ == "sk-tmux-"@ + suffix@,
{
    String::from_str("sk-tmux-").concat(suffix)
}

/// A name for the directory in which a popup leaves its output: the fixed
/// beginning and eight letters or digits drawn at random.
pub fn temp_dir_name() -> (name: String)
    ensures
        name@.len() == 16,
        name@.subrange(0, 8) == "sk-tmux-"@,
        forall|i: int| 8 <= i < 16 ==> spec_is_alphanumeric(#[trigger] name@[i]),
{
    let suffix = random_alphanumeric(8);
    let name = temp_dir_name_with(suffix.as_str());
    proof {
        reveal_strlit("sk-tmux-");
        assert(name@.subrange(0, 8) =~= "sk-tmux-"@);
        assert forall|i: int| 8 <= i < 16 implies spec_is_alphanumeric(#[trigger] name@[i]) by {
            assert(name@[i] == suffix@[i - 8]);
        }
    }
    name
}

/// The texts as mathematical values.
pub open spec fn spec_args(args: Seq<String>) -> Seq<Seq<char>> {
    Seq::new(args.len(), |i: int| args[i]@)
}

/// Whether the `i`-th argument of a command line is handed on to the popup.
///
/// The flag `--tmux` is not, and neither is what follows it, unless that
/// starts with a dash and so is a flag itself.
pub open spec fn spec_forwarded(args: Seq<Seq<char>>, i: int) -> bool {
    &&& args[i] != "--tmux"@
    &&& !(i > 0 && args[i - 1] == "--tmux"@ && !(args[i].len() > 0 && args[i][0] == '-'))
}

/// The arguments among the first `n` that are handed on, each behind a blank.
pub open spec fn spec_joined(args: Seq<Seq<char>>, n: int) -> Seq<char>
    decreases n,
{
    if n <= 0 {
        Seq::empty()
    } else if spec_forwarded(args, n - 1) {
        spec_joined(args, n - 1) + " "@ + args[n - 1]
    } else {
        spec_joined(args, n - 1)
    }
}

/// The command line that runs in the popup: the arguments that are handed
/// on, with both output streams sent to files.
pub open spec fn spec_shell_command(args: Seq<Seq<char>>, stdout: Seq<char>, stderr: Seq<char>) -> Seq<
    char,
> {
    spec_joined(args, args.len() as int) + " >"@ + stdout + " 2>"@ + stderr
}

/// Builds the command line that runs in the popup from the arguments of
/// this process and the paths of the two files that take its output.
pub fn shell_command(args: &Vec<String>, stdout: &str, stderr: &str) -> (command: String)
    ensures
        command@ == spec_shell_command(spec_args(args@), stdout@, stderr@),
{
    let ghost texts = spec_args(args@);
    let mut command = String::new();
    let mut prev_is_tmux_flag = false;
    let mut i: usize = 0;
    while i < args.len()
        invariant
            i <= args.len(),
            texts == spec_args(args@),
            command@ == spec_joined(texts, i as int),
            prev_is_tmux_flag == (i > 0 && texts[i - 1] == "--tmux"@),
        decreases args.len() - i,
    {
        let arg = args[i].as_str();
        let is_flag = str_eq(arg, "--tmux");
        let dashed = arg.unicode_len() > 0 && arg.get_char(0) == '-';
        let skipped = prev_is_tmux_flag && !dashed;
        if !skipped && !is_flag {
            command.append(" ");
            command.append(arg);
        }
        prev_is_tmux_flag = is_flag;
        i += 1;
    }
    command.append(" >");
    command.append(stdout);
    command.append(" 2>");
    command.append(stderr);
    command
}

/// What a popup has left behind, as mathematical values.
pub struct PopupOutputView {
    pub query: Seq<char>,
    pub cmd: Seq<char>,
    pub accept_key: Option<Seq<char>>,
    pub selected: Seq<Seq<char>>,
    pub is_abort: bool,
}

/// What a popup has left behind: the query and the command it ended with,
/// the key that ended it, the lines that were chosen, and whether it was
/// given up.
#[derive(Debug)]
pub struct PopupOutput {
    pub query: String,
    pub cmd: String,
    pub accept_key: Option<String>,
    pub selected: Vec<String>,
    pub is_abort: bool,
}

impl View for PopupOutput {
    type V = PopupOutputView;

    open spec fn view(&self) -> PopupOutputView {
        PopupOutputView {
            query: self.query@,
            cmd: self.cmd@,
            accept_key: match self.accept_key {
                Some(k) => Some(k@),
                None => None,
            },
            selected: spec_args(self.selected@),
            is_abort: self.is_abort,
        }
    }
}

/// The character that ends each line of a popup's output.
pub open spec fn spec_ending(print0: bool) -> char {
    if print0 {
        '\0'
    } else {
        '\n'
    }
}

/// 1 for a line that is there, 0 for one that is not.
pub open spec fn spec_count(present: bool) -> int {
    if present {
        1
    } else {
        0
    }
}

/// What the lines of a popup's output say.
///
/// A popup that ended well has written, each on a line of its own and in
/// this order, the query if that was asked for, the command if that was
/// asked for, and the key that ended it if keys were expected; the chosen
/// lines follow. One that was given up has written chosen lines only. Lines
/// that should be there and are not make the output unreadable.
pub open spec fn spec_read_output(
    lines: Seq<Seq<char>>,
    print_query: bool,
    print_cmd: bool,
    expects_key: bool,
    success: bool,
) -> Option<PopupOutputView> {
    let q = spec_count(print_query && success);
    let c = spec_count(print_cmd && success);
    let k = spec_count(expects_key && success);
    if lines.len() < q + c + k {
        None
    } else {
        Some(
            PopupOutputView {
                query: if q == 1 {
                    lines[0]
                } else {
                    Seq::empty()
                },
                cmd: if c == 1 {
                    lines[q]
                } else {
                    Seq::empty()
                },
                accept_key: if k == 1 {
                    Some(lines[q + c])
                } else {
                    None
                },
                selected: lines.subrange(q + c + k, lines.len() as int),
                is_abort: !success,
            },
        )
    }
}

/// Reads what a popup has written to its standard output.
///
/// Gives nothing exactly where a line that should be there is missing.
pub fn read_output(
    stdout: &str,
    print0: bool,
    print_query: bool,
    print_cmd: bool,
    expects_key: bool,
    success: bool,
) -> (output: Option<PopupOutput>)
    ensures
        match output {
            Some(o) => spec_read_output(
                spec_split(stdout@, spec_ending(print0)),
                print_query,
                print_cmd,
                expects_key,
                success,
            ) == Some(o@),
            None => spec_read_output(
                spec_split(stdout@, spec_ending(print0)),
                print_query,
                print_cmd,
                expects_key,
                success,
            ) is None,
        },
{
    let ending = if print0 { '\0' } else { '\n' };
    let lines = split(stdout, ending);
    let ghost texts = spec_slices(lines@);
    let mut next: usize = 0;
    let mut query = String::new();
    let mut cmd = String::new();
    let mut accept_key: Option<String> = None;
    if print_query && success {
        if next >= lines.len() {
            return None;
        }
        query = String::from_str(lines[next]);
        assert(query@ == texts[next as int]);
        next += 1;
    }
    if print_cmd && success {
        if next >= lines.len() {
            return None;
        }
        cmd = String::from_str(lines[next]);
        assert(cmd@ == texts[next as int]);
        next += 1;
    }
    if expects_key && success {
        if next >= lines.len() {
            return None;
        }
        accept_key = Some(String::from_str(lines[next]));
        assert(accept_key->0@ == texts[next as int]);
        next += 1;
    }
    let first = next;
    let mut selected: Vec<String> = Vec::new();
    while next < lines.len()
        invariant
            first <= next <= lines.len(),
            texts == spec_slices(lines@),
            selected@.len() == next - first,
            forall|i: int| 0 <= i < selected@.len() ==> (#[trigger] selected@[i])@ == texts[first + i],
        decreases lines.len() - next,
    {
        selected.push(String::from_str(lines[next]));
        next += 1;
    }
    proof {
        assert(spec_args(selected@) =~= texts.subrange(first as int, texts.len() as int));
    }
    Some(PopupOutput { query, cmd, accept_key, selected, is_abort: !success })
}

/// The command that opens a popup, as the multiplexer takes it: its name,
/// its flags, its options with their values, and the command line to run.
#[derive(Debug)]
pub struct PopupCommand {
    pub name: String,
    pub flags: Vec<String>,
    pub options: Vec<(String, String)>,
    pub param: String,
}

/// The command that opens a popup of the given layout and runs
/// `shell_command` in it: `popup -E`, with height, width and the two
/// anchors as options, in this order.
pub fn popup_command(opts: &TmuxOptions, shell_command: String) -> (command: PopupCommand)
    ensures
        command.name@ == "popup"@,
        command.flags@.len() == 1,
        command.flags@[0]@ == "-E"@,
        command.options@.len() == 4,
        command.options@[0].0@ == "-h"@ && command.options@[0].1@ == opts@.height,
        command.options@[1].0@ == "-w"@ && command.options@[1].1@ == opts@.width,
        command.options@[2].0@ == "-x"@ && command.options@[2].1@ == opts@.x,
        command.options@[3].0@ == "-y"@ && command.options@[3].1@ == opts@.y,
        command.param@ == shell_command@,
{
    let flags = vec![String::from_str("-E")];
    let options = vec![
        (String::from_str("-h"), String::from_str(opts.height)),
        (String::from_str("-w"), String::from_str(opts.width)),
        (String::from_str("-x"), String::from_str(opts.x)),
        (String::from_str("-y"), String::from_str(opts.y)),
    ];
    PopupCommand { name: String::from_str("popup"), flags, options, param: shell_command }
}

} // verus!
