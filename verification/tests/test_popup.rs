use skimmer::text::{
    ascii_lower, chars_of, eq_lowered, find_char, slice_at, split, split_once, str_eq,
};
use skimmer::tmux::{
    popup_command, read_output, shell_command, temp_dir_name, temp_dir_name_with, TmuxOptions,
    TmuxWindowDir,
};

fn args(items: &[&str]) -> Vec<String> {
    items.iter().map(|s| s.to_string()).collect()
}

#[test]
fn the_five_directions() {
    assert_eq!(TmuxWindowDir::parse("center"), Some(TmuxWindowDir::Center));
    assert_eq!(TmuxWindowDir::parse("top"), Some(TmuxWindowDir::Top));
    assert_eq!(TmuxWindowDir::parse("bottom"), Some(TmuxWindowDir::Bottom));
    assert_eq!(TmuxWindowDir::parse("left"), Some(TmuxWindowDir::Left));
    assert_eq!(TmuxWindowDir::parse("right"), Some(TmuxWindowDir::Right));
    assert_eq!(TmuxWindowDir::parse("Center"), None);
    assert_eq!(TmuxWindowDir::parse(""), None);
    assert_eq!(TmuxWindowDir::parse("centre"), None);
}

#[test]
fn an_unknown_direction_gives_no_layout() {
    assert!(TmuxOptions::parse("middle,50%").is_none());
    assert!(TmuxOptions::parse(",50%").is_none());
    assert!(TmuxOptions::parse("").is_none());
}

#[test]
fn a_direction_alone_takes_one_half() {
    let opts = TmuxOptions::parse("center").unwrap();
    assert_eq!((opts.width, opts.height, opts.x, opts.y), ("50%", "50%", "C", "C"));
    let opts = TmuxOptions::parse("left").unwrap();
    assert_eq!((opts.width, opts.height, opts.x, opts.y), ("50%", "100%", "0%", "C"));
    let opts = TmuxOptions::parse("bottom").unwrap();
    assert_eq!((opts.width, opts.height, opts.x, opts.y), ("100%", "50%", "C", "100%"));
}

#[test]
fn what_follows_the_second_comma_belongs_to_the_second_size() {
    let opts = TmuxOptions::parse("top,10,20,30").unwrap();
    assert_eq!((opts.height, opts.width), ("10", "20,30"));
}

#[test]
fn splitting_once() {
    assert_eq!(split_once("a,b,c", ','), Some(("a", "b,c")));
    assert_eq!(split_once(",", ','), Some(("", "")));
    assert_eq!(split_once("abc", ','), None);
    assert_eq!(split_once("é,ü", ','), Some(("é", "ü")));
}

#[test]
fn splitting_at_every_separator() {
    assert_eq!(split("a\nb\n", '\n'), vec!["a", "b", ""]);
    assert_eq!(split("", '\n'), vec![""]);
    assert_eq!(split("a\0b", '\0'), vec!["a", "b"]);
    assert_eq!(split("\n\n", '\n'), vec!["", "", ""]);
    assert_eq!(split("äö\nü", '\n'), vec!["äö", "ü"]);
}

#[test]
fn texts_are_compared_by_their_characters() {
    assert!(str_eq("abc", "abc"));
    assert!(!str_eq("abc", "abd"));
    assert!(!str_eq("abc", "ab"));
    assert!(str_eq("", ""));
    assert!(str_eq("日本", "日本"));
}

#[test]
fn the_name_of_the_output_directory() {
    assert_eq!(temp_dir_name_with("abcd1234"), "sk-tmux-abcd1234");
    let name = temp_dir_name();
    assert_eq!(name.chars().count(), 16);
    assert!(name.starts_with("sk-tmux-"));
    assert!(name[8..].chars().all(|c| c.is_ascii_alphanumeric()));
}

#[test]
fn the_tmux_flag_and_its_value_are_not_handed_on() {
    let command = shell_command(&args(&["sk", "--tmux", "center,50%", "-m", "--query", "x"]), "/t/out", "/t/err");
    assert_eq!(command, " sk -m --query x >/t/out 2>/t/err");
}

#[test]
fn a_flag_behind_the_tmux_flag_is_handed_on() {
    let command = shell_command(&args(&["sk", "--tmux", "-m"]), "o", "e");
    assert_eq!(command, " sk -m >o 2>e");
    let command = shell_command(&args(&["sk", "--tmux", "--tmux", "top", "x"]), "o", "e");
    assert_eq!(command, " sk x >o 2>e");
    let command = shell_command(&args(&["sk", "--tmux"]), "o", "e");
    assert_eq!(command, " sk >o 2>e");
    let command = shell_command(&args(&["sk", "--tmux", ""]), "o", "e");
    assert_eq!(command, " sk >o 2>e");
    let command = shell_command(&args(&[]), "o", "e");
    assert_eq!(command, " >o 2>e");
    let command = shell_command(&args(&["sk", "--tmux=top", "a b"]), "o", "e");
    assert_eq!(command, " sk --tmux=top a b >o 2>e");
}

#[test]
fn the_lines_of_a_popup_that_ended_well() {
    let out = read_output("the query\nthe cmd\nenter\none\ntwo\n", false, true, true, true, true).unwrap();
    assert_eq!(out.query, "the query");
    assert_eq!(out.cmd, "the cmd");
    assert_eq!(out.accept_key, Some("enter".to_string()));
    assert_eq!(out.selected, vec!["one", "two", ""]);
    assert!(!out.is_abort);
}

#[test]
fn only_what_was_asked_for_is_read() {
    let out = read_output("one\ntwo", false, false, false, false, true).unwrap();
    assert_eq!(out.query, "");
    assert_eq!(out.cmd, "");
    assert_eq!(out.accept_key, None);
    assert_eq!(out.selected, vec!["one", "two"]);
    let out = read_output("cmd\none", false, false, true, false, true).unwrap();
    assert_eq!(out.query, "");
    assert_eq!(out.cmd, "cmd");
    assert_eq!(out.selected, vec!["one"]);
    let out = read_output("key\0one\0", true, false, false, true, true).unwrap();
    assert_eq!(out.accept_key, Some("key".to_string()));
    assert_eq!(out.selected, vec!["one", ""]);
}

#[test]
fn a_popup_that_was_given_up_has_written_chosen_lines_only() {
    let out = read_output("a\nb", false, true, true, true, false).unwrap();
    assert!(out.is_abort);
    assert_eq!(out.query, "");
    assert_eq!(out.cmd, "");
    assert_eq!(out.accept_key, None);
    assert_eq!(out.selected, vec!["a", "b"]);
    let out = read_output("", false, true, true, true, false).unwrap();
    assert_eq!(out.selected, vec![""]);
}

#[test]
fn missing_lines_make_the_output_unreadable() {
    assert!(read_output("q", false, true, true, false, true).is_none());
    assert!(read_output("q\nc", false, true, true, true, true).is_none());
    assert!(read_output("", false, true, true, false, true).is_none());
    let out = read_output("", false, true, false, false, true).unwrap();
    assert_eq!(out.query, "");
    assert!(out.selected.is_empty());
    let out = read_output("q\nc\nk", false, true, true, true, true).unwrap();
    assert!(out.selected.is_empty());
}

#[test]
fn the_command_that_opens_the_popup() {
    let description = "left,30%".to_string();
    let opts = TmuxOptions::from(&description);
    let command = popup_command(&opts, " sk >o 2>e".to_string());
    assert_eq!(command.name, "popup");
    assert_eq!(command.flags, vec!["-E"]);
    let options: Vec<(&str, &str)> = command.options.iter().map(|(k, v)| (k.as_str(), v.as_str())).collect();
    assert_eq!(options, vec![("-h", "100%"), ("-w", "30%"), ("-x", "0%"), ("-y", "C")]);
    assert_eq!(command.param, " sk >o 2>e");
}

#[test]
fn comparing_without_regard_to_ascii_case() {
    assert!(eq_lowered("ClangD", "clangd"));
    assert!(eq_lowered("clangd", "clangd"));
    assert!(!eq_lowered("clangd", "Clangd"));
    assert!(!eq_lowered("clang", "clangd"));
    assert!(!eq_lowered("clangdd", "clangd"));
    assert!(eq_lowered("", ""));
    assert!(!eq_lowered("Ä", "ä"));
    assert_eq!(ascii_lower('A'), 'a');
    assert_eq!(ascii_lower('Z'), 'z');
    assert_eq!(ascii_lower('a'), 'a');
    assert_eq!(ascii_lower('['), '[');
    assert_eq!(ascii_lower('@'), '@');
    assert_eq!(ascii_lower('É'), 'É');
    assert_eq!(chars_of("aé日"), vec!['a', 'é', '日']);
    assert_eq!(find_char("aé日,x", ','), Some(3));
    assert_eq!(find_char("abc", ','), None);
}

#[test]
fn cutting_a_text_at_byte_offsets() {
    assert_eq!(slice_at("héllo wörld", 7, 13), ("héllo ", "wörld"));
    assert_eq!(slice_at("héllo", 0, 6), ("", "héllo"));
    assert_eq!(slice_at("héllo", 3, 3), ("hé", ""));
}
