use tmplt::parser::Parser;
use tmplt::strings::{contains_str, parse_usize, split_char, starts_with, str_eq, trim};
use tmplt::syntax_tree::{Node, Tree};
use tmplt::token::{SectionIdentity, Token};

#[test]
fn keywords_are_classified() {
    assert_eq!(Token::from("FOLDER".to_string()), Token::DeclareFolder);
    assert_eq!(Token::from("FLDR".to_string()), Token::DeclareFolder);
    assert_eq!(Token::from("FILE".to_string()), Token::DeclareFile);
    assert_eq!(Token::from("COPY".to_string()), Token::CopyAction);
    assert_eq!(Token::from("COPY_INTO".to_string()), Token::CopyAction);
    assert_eq!(Token::from("DEFER".to_string()), Token::DeferAction);
    assert_eq!(Token::from("=".to_string()), Token::Assign);
    assert_eq!(
        Token::from("#name".to_string()),
        Token::Arg("#name".to_string())
    );
    assert_eq!(Token::from("plain".to_string()), Token::Skip);
    // Keywords are case-sensitive.
    assert_eq!(Token::from("folder".to_string()), Token::Skip);
}

#[test]
fn section_headers_are_classified() {
    assert_eq!(
        SectionIdentity::from("__CWD".to_string()),
        SectionIdentity::CurrentWorkingDirectory
    );
    assert_eq!(
        SectionIdentity::from("__FILE_STRUCT".to_string()),
        SectionIdentity::CurrentWorkingDirectory
    );
    assert_eq!(
        SectionIdentity::from("__DEMO".to_string()),
        SectionIdentity::Demostration
    );
    assert_eq!(
        SectionIdentity::from("__EXAMPLES".to_string()),
        SectionIdentity::Demostration
    );
    assert_eq!(
        SectionIdentity::from("__SCRIPTS".to_string()),
        SectionIdentity::Scripts
    );
    assert_eq!(
        SectionIdentity::from("__CMD".to_string()),
        SectionIdentity::Scripts
    );
    assert_eq!(
        SectionIdentity::from("__VAR".to_string()),
        SectionIdentity::Variables
    );
    assert_eq!(
        SectionIdentity::from("__WAT".to_string()),
        SectionIdentity::UnknownSection
    );
    assert!(SectionIdentity::Scripts.unknown("__SCRIPTS".to_string()).is_ok());
    let err = SectionIdentity::UnknownSection
        .unknown("__WAT".to_string())
        .unwrap_err();
    assert_eq!(err.location(), "__WAT");
}

#[test]
fn a_node_keeps_its_words() {
    let node = Node::new("DEFER npm i".to_string());
    assert_eq!(node.get_words(), vec!["DEFER", "npm", "i"]);
    assert_eq!(node.text, "DEFER");
    assert_eq!(node.current_token, Token::DeferAction);
    let pairs = node.pairs();
    assert_eq!(pairs.len(), 3);
    assert_eq!(pairs[0].0, Token::DeferAction);
    assert_eq!(pairs[1], (Token::Skip, "npm".to_string()));
    assert_eq!(pairs[2], (Token::Skip, "i".to_string()));
}

#[test]
fn a_tree_has_one_branch_per_section() {
    let lines: Vec<String> = [
        "__CWD :",
        "src",
        "FILE main.rs",
        "__SCRIPTS :",
        "echo hi",
    ]
    .iter()
    .map(|s| s.to_string())
    .collect();
    let tree = Tree::construct(lines).expect("both sections are known");
    assert_eq!(tree.branches.len(), 2);
    assert_eq!(
        tree.branches[0].section_kind,
        SectionIdentity::CurrentWorkingDirectory
    );
    assert_eq!(tree.branches[0].nodes.len(), 2);
    assert_eq!(tree.branches[0].nodes[1].get_words(), vec!["FILE", "main.rs"]);
    assert_eq!(tree.branches[1].section_kind, SectionIdentity::Scripts);
    assert_eq!(tree.branches[1].nodes.len(), 1);
}

#[test]
fn an_unknown_section_stops_the_tree() {
    let lines: Vec<String> = ["__CWD :", "src", "__WAT :", "x"]
        .iter()
        .map(|s| s.to_string())
        .collect();
    let err = Tree::construct(lines).unwrap_err();
    assert_eq!(err.location(), "__WAT");
}

#[test]
fn parse_data_trims_and_drops_comments_and_blanks() {
    let parser = Parser::new("tmplt".to_string());
    let data = "  first \n// a comment\n\n\tsecond\n".to_string();
    assert_eq!(parser.parse_data(data), vec!["first", "second"]);
}

#[test]
fn template_names_carry_exactly_one_extension() {
    let parser = Parser::new("tmplt".to_string());
    assert!(parser.valid_file_name("demo.tmplt"));
    assert!(parser.valid_file_name("some/dir/demo.tmplt"));
    assert!(parser.valid_file_name("some\\dir\\demo.tmplt"));
    assert!(!parser.valid_file_name("some.file.ext"));
    assert!(!parser.valid_file_name("noext"));
    assert!(!parser.valid_file_name("dotted.dir/noext"));
}

#[test]
fn text_helpers_match_the_standard_ones() {
    assert_eq!(split_char("a b", ' '), vec!["a", "b"]);
    assert_eq!(split_char("", ' '), vec![""]);
    assert_eq!(split_char("a  b ", ' '), vec!["a", "", "b", ""]);
    assert_eq!(trim("  \t x y\r\n"), "x y");
    assert_eq!(trim("   "), "");
    assert!(starts_with("--batch-size=5", "--batch-size"));
    assert!(!starts_with("-batch", "--"));
    assert!(str_eq("same", "same"));
    assert!(!str_eq("same", "sane"));
    assert!(contains_str("new.tmplt", ".tmplt"));
    assert!(!contains_str("new.tmpl", ".tmplt"));
    assert_eq!(parse_usize("50"), Some(50));
    assert_eq!(parse_usize("+7"), Some(7));
    assert_eq!(parse_usize(""), None);
    assert_eq!(parse_usize("+"), None);
    assert_eq!(parse_usize("12a"), None);
    assert_eq!(parse_usize("99999999999999999999999999"), None);
}
