use arg_parser::param::Param;
use arg_parser::parser::{find_eq, leading, ArgParser};

fn argv(tokens: &[&str]) -> Vec<String> {
    tokens.iter().map(|t| String::from(*t)).collect()
}

#[test]
fn stop_parsing() {
    let args = vec![String::from("binname"), String::from("-a"), String::from("--"), String::from("-v")];
    let mut parser = ArgParser::new(2);
    parser = parser.add_flag(&["a"]).add_flag(&["v"]);
    parser.parse(args);
    assert!(parser.found(&'a'));
    assert!(!parser.found(&'v'));
    assert!(parser.args[0] == "-v");
}

#[test]
fn short_opts() {
    let args = vec![String::from("binname"), String::from("-asdf"), String::from("-f"), String::from("foo")];
    let mut parser = ArgParser::new(4);
    parser = parser.add_flag(&["a"])
        .add_flag(&["d"])
        .add_opt("s", "")
        .add_opt("f", "");
    parser.parse(args);
    assert!(parser.found(&'a'));
    assert!(!parser.found(&'d'));
    assert!(parser.get_opt(&'s') == Some(String::from("df")));
    assert!(parser.get_opt(&'f') == Some(String::from("foo")));
}

#[test]
fn long_opts() {
    let args = vec![String::from("binname"), String::from("--foo=bar")];
    let mut parser = ArgParser::new(4);
    parser = parser.add_opt("", "foo");
    parser.parse(args);
    assert!(parser.get_opt("foo") == Some(String::from("bar")));
}

#[test]
fn settings() {
    let args = vec![String::from("binname"), String::from("-h"), String::from("if=bar")];
    let mut parser = ArgParser::new(4);
    parser = parser.add_flag(&["h"]).add_setting("if").add_setting_default("of", "foo");
    parser.parse(args);
    assert!(parser.found("if"));
    assert!(parser.get_setting("if") == Some(String::from("bar")));
    assert!(parser.get_setting("of") == Some(String::from("foo")));
}

#[test]
fn stop_marker_keeps_everything_after_it() {
    let mut parser = ArgParser::new(2).add_flag(&["a"]).add_opt("o", "out");
    parser.parse(argv(&["prog", "x", "--", "-a", "--out=1", "k=v", "--", "y"]));
    assert_eq!(parser.args, argv(&["x", "-a", "--out=1", "k=v", "--", "y"]));
    assert!(!parser.found(&'a'));
    assert_eq!(parser.get_opt("out"), None);
    assert_eq!(parser.found_invalid(), Ok(()));
}

#[test]
fn occurrences_start_again_after_an_empty_value() {
    let mut parser = ArgParser::new(1).add_opt_default("", "tag", "");
    parser.parse(argv(&["prog", "--tag=x", "--tag=y"]));
    assert_eq!(parser.count("tag"), 2);
    assert_eq!(parser.get_opt("tag"), Some(String::from("y")));
}

#[test]
fn bare_long_uses_count_until_a_first_value_resets_them() {
    let mut parser = ArgParser::new(1).add_opt("", "tag");
    parser.parse(argv(&["prog", "--tag", "--tag", "--tag"]));
    assert_eq!(parser.count("tag"), 3);
    assert_eq!(parser.get_opt("tag"), Some(String::new()));
    parser.parse(argv(&["prog", "--tag=x"]));
    assert_eq!(parser.count("tag"), 1);
    parser.parse(argv(&["prog", "--tag=z", "--tag"]));
    assert_eq!(parser.count("tag"), 3);
    assert_eq!(parser.get_opt("tag"), Some(String::from("z")));
}

#[test]
fn two_invalid_parameters_are_joined() {
    let mut parser = ArgParser::new(0);
    parser.parse(argv(&["prog", "-z", "--bogus"]));
    assert_eq!(parser.found_invalid(), Err(String::from("Invalid parameters '-z' and '--bogus'\n")));
}

#[test]
fn one_invalid_parameter_is_singular() {
    let mut parser = ArgParser::new(0);
    parser.parse(argv(&["prog", "--bogus=1"]));
    assert_eq!(parser.found_invalid(), Err(String::from("Invalid parameter '--bogus'\n")));
    let mut short = ArgParser::new(0);
    short.parse(argv(&["prog", "-q"]));
    assert_eq!(short.found_invalid(), Err(String::from("Invalid parameter '-q'\n")));
}

#[test]
fn three_invalid_parameters_keep_order_and_repeats() {
    let mut parser = ArgParser::new(0);
    parser.parse(argv(&["prog", "-zz", "key=value"]));
    assert_eq!(
        parser.found_invalid(),
        Err(String::from("Invalid parameters '-z' and '-z' and '--key'\n"))
    );
}

#[test]
fn nothing_invalid_is_ok() {
    let mut parser = ArgParser::new(1).add_flag(&["v"]);
    parser.parse(argv(&["prog", "-v", "file"]));
    assert_eq!(parser.found_invalid(), Ok(()));
}

#[test]
fn plain_tokens_come_back_in_order() {
    let mut parser = ArgParser::new(2).add_flag(&["a", "all"]).add_opt("o", "out");
    parser.parse(argv(&["prog", "one", "-", "two", "", "three"]));
    assert_eq!(parser.args, argv(&["one", "-", "two", "", "three"]));
    assert_eq!(parser.found_invalid(), Ok(()));
    assert!(!parser.found("all"));
}

#[test]
fn empty_argument_vector_changes_nothing() {
    let mut parser = ArgParser::new(0).add_flag(&["a"]);
    parser.parse(Vec::new());
    assert!(parser.args.is_empty());
    parser.parse(argv(&["-a"]));
    assert!(!parser.found(&'a'));
    assert!(parser.args.is_empty());
}

#[test]
fn aliases_share_the_value_but_not_the_count() {
    let mut parser = ArgParser::new(2).add_flag(&["f", "force", ""]).add_opt("o", "out");
    parser.parse(argv(&["prog", "--force", "-ff", "--out=a", "-o", "b"]));
    assert!(parser.found(&'f'));
    assert!(parser.found("force"));
    assert_eq!(parser.count(&'f'), 2);
    assert_eq!(parser.count("force"), 1);
    assert_eq!(parser.get_opt(&'o'), Some(String::from("b")));
    assert_eq!(parser.get_opt("out"), Some(String::from("b")));
    assert_eq!(parser.count("out"), 1);
    assert_eq!(parser.count(&'o'), 0);
    assert_eq!(parser.count(&Param::Long(String::from("out"))), 1);
}

#[test]
fn short_option_without_a_value_is_found_and_empty() {
    let mut parser = ArgParser::new(1).add_opt("s", "");
    parser.parse(argv(&["prog", "-s"]));
    assert!(parser.found(&'s'));
    assert_eq!(parser.get_opt(&'s'), Some(String::new()));
}

#[test]
fn short_option_takes_the_next_token_whatever_it_is() {
    let mut parser = ArgParser::new(2).add_opt("s", "").add_flag(&["v"]);
    parser.parse(argv(&["prog", "-vs", "-v", "rest"]));
    assert_eq!(parser.get_opt(&'s'), Some(String::from("-v")));
    assert_eq!(parser.count(&'v'), 1);
    assert_eq!(parser.args, argv(&["rest"]));
}

#[test]
fn unknown_short_does_not_end_the_cluster() {
    let mut parser = ArgParser::new(2).add_flag(&["a"]).add_flag(&["b"]);
    parser.parse(argv(&["prog", "-azb"]));
    assert!(parser.found(&'a'));
    assert!(parser.found(&'b'));
    assert_eq!(parser.found_invalid(), Err(String::from("Invalid parameter '-z'\n")));
}

#[test]
fn bare_long_option_keeps_its_default() {
    let mut parser = ArgParser::new(1).add_opt_default("c", "color", "auto");
    assert_eq!(parser.get_opt("color"), Some(String::from("auto")));
    parser.parse(argv(&["prog", "--color"]));
    assert_eq!(parser.get_opt(&'c'), Some(String::from("auto")));
    assert_eq!(parser.count("color"), 1);
}

#[test]
fn option_without_default_is_absent_until_given() {
    let mut parser = ArgParser::new(1).add_opt("c", "color").add_setting("bs");
    assert_eq!(parser.get_opt("color"), None);
    assert_eq!(parser.get_setting("bs"), None);
    assert!(!parser.found("color"));
    parser.parse(argv(&["prog", "bs=4k=x"]));
    assert_eq!(parser.get_setting("bs"), Some(String::from("4k=x")));
    assert_eq!(parser.get_opt("bs"), None);
    assert_eq!(parser.count("bs"), 0);
}

#[test]
fn a_name_of_the_wrong_kind_is_invalid() {
    let mut parser = ArgParser::new(3).add_flag(&["verbose"]).add_opt("", "out").add_setting("if");
    parser.parse(argv(&["prog", "--if=a", "out=b", "--verbose=1", "--if"]));
    assert_eq!(
        parser.found_invalid(),
        Err(String::from("Invalid parameters '--if' and '--out' and '--verbose' and '--if'\n"))
    );
    assert_eq!(parser.get_setting("if"), None);
    assert_eq!(parser.get_opt("out"), None);
    assert!(!parser.found("verbose"));
}

#[test]
fn a_later_registration_replaces_an_earlier_one() {
    let mut parser = ArgParser::new(2).add_flag(&["x"]).add_opt("x", "");
    parser.parse(argv(&["prog", "-x", "v"]));
    assert_eq!(parser.get_opt(&'x'), Some(String::from("v")));
    assert!(parser.args.is_empty());
}

#[test]
fn handles_write_through_to_every_alias() {
    let mut parser = ArgParser::new(2).add_flag(&["f", "force"]).add_opt("o", "out");
    *parser.flag(&'f') = true;
    assert!(parser.found("force"));
    *parser.flag("force") = false;
    assert!(!parser.found(&'f'));
    parser.opt("out").push_str("file");
    assert_eq!(parser.get_opt(&'o'), None);
    parser.parse(argv(&["prog", "--out"]));
    assert_eq!(parser.get_opt(&'o'), Some(String::from("file")));
}

#[test]
fn handles_for_unknown_keys_touch_nothing() {
    let mut parser = ArgParser::new(2).add_flag(&["f"]).add_opt_default("o", "out", "a");
    *parser.flag(&'o') = true;
    *parser.flag("nope") = true;
    *parser.opt(&'f') = String::from("junk");
    *parser.opt("nope") = String::from("junk");
    assert!(!parser.found(&'f'));
    assert!(!parser.found("nope"));
    assert_eq!(parser.get_opt(&'o'), Some(String::from("a")));
    assert_eq!(parser.count(&'f'), 0);
}

#[test]
fn unknown_keys_read_as_nothing() {
    let parser = ArgParser::new(0);
    assert_eq!(parser.count(&'q'), 0);
    assert_eq!(parser.count("quiet"), 0);
    assert!(!parser.found("quiet"));
    assert_eq!(parser.get_opt("quiet"), None);
    assert_eq!(parser.get_setting("quiet"), None);
}

#[test]
fn one_byte_aliases_are_short_and_longer_ones_long() {
    let mut parser = ArgParser::new(1).add_flag(&["é", "v"]);
    parser.parse(argv(&["prog", "-é", "--é", "-v"]));
    assert!(parser.found("é"));
    assert_eq!(parser.count("é"), 1);
    assert_eq!(parser.count(&'v'), 1);
    assert_eq!(parser.found_invalid(), Err(String::from("Invalid parameter '-é'\n")));
}

#[test]
fn first_equals_sign_and_first_character() {
    assert_eq!(find_eq("a=b=c"), 1);
    assert_eq!(find_eq("=x"), 0);
    assert_eq!(find_eq("abc"), 3);
    assert_eq!(find_eq(""), 0);
    assert_eq!(leading("xyz"), Some('x'));
    assert_eq!(leading(""), None);
}

#[test]
fn keys_compare_by_style_and_payload() {
    assert!(Param::Short('a') == Param::Short('a'));
    assert!(Param::Short('a') != Param::Short('b'));
    assert!(Param::Short('a') != Param::Long(String::from("a")));
    assert!(Param::Long(String::from("ab")).same(&Param::Long(String::from("ab"))));
}

#[test]
fn default_parser_is_empty() {
    let mut parser = ArgParser::default();
    parser.parse(argv(&["prog", "-a", "x"]));
    assert_eq!(parser.args, argv(&["x"]));
    assert_eq!(parser.found_invalid(), Err(String::from("Invalid parameter '-a'\n")));
}

#[test]
fn positional_arguments_are_the_public_list() {
    let mut parser = ArgParser::new(0);
    parser.parse(argv(&["prog", "a", "b"]));
    assert_eq!(parser.positional(), &argv(&["a", "b"]));
    assert_eq!(parser.positional(), &parser.args);
}

#[test]
fn parsing_twice_keeps_what_was_recorded() {
    let mut parser = ArgParser::new(1).add_flag(&["v", "verbose"]);
    parser.parse(argv(&["prog", "one", "-x", "-v"]));
    parser.parse(argv(&["prog", "--nope", "two", "--verbose"]));
    assert_eq!(parser.args, argv(&["one", "two"]));
    assert_eq!(
        parser.found_invalid(),
        Err(String::from("Invalid parameters '-x' and '--nope'\n"))
    );
    assert_eq!(parser.count(&'v'), 1);
    assert_eq!(parser.count("verbose"), 1);
    assert!(parser.found(&'v'));
}
