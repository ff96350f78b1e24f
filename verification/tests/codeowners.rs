//! Tests for the ownership-file parser and the matching query.

use codeowners::owner::Owner;
use codeowners::parse;
use codeowners::pattern_to_glob;
use codeowners::rule::{ParseError, Rule};

/// The example from the GitHub CODEOWNERS documentation: every rule is
/// parsed as written, and each query answers the owners of the last
/// matching rule.
#[test]
fn test_github_example() {
    let example = r#"# This is a comment.
# Each line is a file pattern followed by one or more owners.

# These owners will be the default owners for everything in
# the repo. Unless a later match takes precedence,
# @global-owner1 and @global-owner2 will be requested for
# review when someone opens a pull request.
*       @global-owner1 @global-owner2

# Order is important; the last matching pattern takes the most
# precedence. When someone opens a pull request that only
# modifies JS files, only @js-owner and not the global
# owner(s) will be requested for a review.
*.js    @js-owner

# You can also use email addresses if you prefer. They'll be
# used to look up users just like we do for commit author
# emails.
*.go docs@example.com

# In this example, @doctocat owns any files in the build/logs
# directory at the root of the repository and any of its
# subdirectories.
/build/logs/ @doctocat

# The `docs/*` pattern will match files like
# `docs/getting-started.md` but not further nested files like
# `docs/build-app/troubleshooting.md`.
docs/*  docs@example.com

# In this example, @octocat owns any file in an apps directory
# anywhere in your repository.
apps/ @octocat

# In this example, @doctocat owns any file in the `/docs`
# directory in the root of your repository and any of its
# subdirectories.
/docs/ @doctocat
"#;

    let co = parse(example).unwrap();
    assert_eq!(co.rules.len(), 7);

    let test_rule = |index: usize, pattern: &str, owners: Vec<Owner>, test: &str| {
        let rule: &Rule = &co.rules[index];
        assert_eq!(pattern, rule.pattern);
        assert_eq!(owners, rule.owners);

        let matched_rule: Option<&Vec<Owner>> = co.matches(test);
        assert_eq!(Some(&rule.owners), matched_rule);
    };

    test_rule(
        0,
        "*",
        vec![
            Owner::Handle("@global-owner1".to_string()),
            Owner::Handle("@global-owner2".to_string()),
        ],
        "something",
    );

    test_rule(1, "*.js", vec![Owner::Handle("@js-owner".to_string())], "index.js");
    test_rule(
        2,
        "*.go",
        vec![Owner::Email("docs@example.com".to_string())],
        "mod.go",
    );

    test_rule(
        3,
        "/build/logs/",
        vec![Owner::Handle("@doctocat".to_string())],
        "/build/logs/foobar",
    );

    test_rule(
        4,
        "docs/*",
        vec![Owner::Email("docs@example.com".to_string())],
        "somewhere/docs/readme.md",
    );

    test_rule(
        5,
        "apps/",
        vec![Owner::Handle("@octocat".to_string())],
        "anywhere/apps/test",
    );

    test_rule(
        5,
        "apps/",
        vec![Owner::Handle("@octocat".to_string())],
        "apps/test",
    );
    test_rule(
        6,
        "/docs/",
        vec![Owner::Handle("@doctocat".to_string())],
        "/docs/foo/bar/baz",
    );
}

#[test]
fn test_parse_owner_email() {
    assert_eq!(
        Owner::parse("something@something"),
        Owner::Email("something@something".to_string())
    );
}

#[test]
fn test_parse_owner_handler() {
    assert_eq!(Owner::parse("@someone"), Owner::Handle("@someone".to_string()));
    assert_eq!(
        Owner::parse("@Org/someone"),
        Owner::Handle("@Org/someone".to_string())
    );
}

#[test]
fn test_parse_valid_rule() {
    assert_eq!(
        Rule::parse("some/sub/path @user   someone@example.com").unwrap(),
        Rule {
            pattern: "some/sub/path".into(),
            matchers: vec![],
            owners: vec![
                Owner::Handle("@user".to_owned()),
                Owner::Email("someone@example.com".to_owned())
            ],
        }
    );
}

#[test]
fn test_parse_invalid_rule() {
    assert_eq!(
        Rule::parse("some/sub/path"),
        Err(ParseError::MissingOwners {
            input: "some/sub/path".to_owned(),
        })
    );
}

/// A later matching rule always overrides an earlier one, even when
/// both patterns accept the path.
#[test]
fn test_precedence_last_rule_wins() {
    let co = parse("*.js @first\n*.js @second\n").unwrap();
    assert_eq!(
        co.matches("index.js"),
        Some(&vec![Owner::Handle("@second".to_string())])
    );
}

/// A path that no rule accepts yields no owners.
#[test]
fn test_no_match_returns_none() {
    let co = parse("*.js @js-owner\n").unwrap();
    assert_eq!(co.matches("main.go"), None);
}

/// A directory pattern owns everything beneath a directory of that
/// name at any depth, and nothing under a merely similar name.
#[test]
fn test_directory_pattern_recursion() {
    let co = parse("apps/ @octocat\n").unwrap();
    assert!(co.matches("apps/test").is_some());
    assert!(co.matches("anywhere/apps/test").is_some());
    assert!(co.matches("appsx/test").is_none());
}

/// A root-anchored pattern matches from the root only.
#[test]
fn test_root_anchoring() {
    let co = parse("/docs/ @doctocat\n").unwrap();
    assert!(co.matches("/docs/foo/bar/baz").is_some());
    assert!(co.matches("somewhere/docs/foo").is_none());
}

/// A lone pattern with no owners aborts the whole parse.
#[test]
fn test_missing_owner_rejects_file() {
    assert_eq!(
        parse("some/sub/path"),
        Err(ParseError::MissingOwners {
            input: "some/sub/path".to_owned(),
        })
    );
}

/// A pattern whose translated glob the glob grammar rejects aborts the
/// parse with the offending pattern.
#[test]
fn test_pattern_compile_error() {
    assert_eq!(
        parse("[ @owner"),
        Err(ParseError::PatternCompile {
            pattern: "[".to_owned(),
        })
    );
}

/// A glob that parses but whose compiled form the regex stage rejects
/// (alternate groups nested past the regex grammar's limit) is a
/// structured `PatternCompile` error, not a crash.
#[test]
fn test_deeply_nested_alternates_error() {
    let mut pattern = String::new();
    for _ in 0..300 {
        pattern.push_str("{a,");
    }
    pattern.push('a');
    for _ in 0..300 {
        pattern.push('}');
    }
    let line = format!("{} @owner", pattern);
    assert_eq!(parse(&line), Err(ParseError::PatternCompile { pattern }));
}

/// The first failing line wins: earlier well-formed lines do not mask
/// it, later errors are never reached.
#[test]
fn test_first_error_aborts() {
    assert_eq!(
        parse("* @owner\nno-owners-here\n[ @owner\n"),
        Err(ParseError::MissingOwners {
            input: "no-owners-here".to_owned(),
        })
    );
}

/// Comments, blank lines and leading whitespace are stripped; owner
/// order and duplicates are preserved.
#[test]
fn test_comments_blanks_and_trimming() {
    let co = parse("# heading\n\n   \t\n  *.rs @a @b @a\n# trailing comment\n").unwrap();
    assert_eq!(co.rules.len(), 1);
    assert_eq!(co.rules[0].pattern, "*.rs");
    assert_eq!(
        co.rules[0].owners,
        vec![
            Owner::Handle("@a".to_string()),
            Owner::Handle("@b".to_string()),
            Owner::Handle("@a".to_string()),
        ]
    );
}

/// Empty input parses into an empty table that matches nothing.
#[test]
fn test_empty_input() {
    let co = parse("").unwrap();
    assert_eq!(co.rules.len(), 0);
    assert_eq!(co.matches("anything"), None);
}

/// The exact glob expressions each kind of pattern translates to.
#[test]
fn test_pattern_to_glob_exact() {
    assert_eq!(pattern_to_glob("*"), vec!["*".to_string(), "*/**".to_string()]);
    assert_eq!(
        pattern_to_glob("docs/*"),
        vec!["**/docs/*".to_string(), "**/docs/*/**".to_string()]
    );
    assert_eq!(
        pattern_to_glob("apps/"),
        vec!["**/apps/".to_string(), "**/apps/**".to_string()]
    );
    assert_eq!(
        pattern_to_glob("/build/logs/"),
        vec!["/build/logs/".to_string(), "/build/logs/**".to_string()]
    );
    assert_eq!(
        pattern_to_glob("/docs"),
        vec!["/docs".to_string(), "/docs/**".to_string()]
    );
}

/// An owner renders to text as its underlying handle or email string.
#[test]
fn test_owner_text() {
    assert_eq!(Owner::parse("@someone").as_str(), "@someone");
    assert_eq!(Owner::parse("a@b.c").as_str(), "a@b.c");
}

/// A pattern without a trailing separator still owns its subtree.
#[test]
fn test_bare_name_owns_subtree() {
    let co = parse("/docs @doc\n").unwrap();
    assert!(co.matches("/docs").is_some());
    assert!(co.matches("/docs/nested/deep.md").is_some());
}

/// Runs of any whitespace separate the pattern from its owners.
#[test]
fn test_tab_separated_tokens() {
    let co = parse("*.md\t@docs \t @extra\n").unwrap();
    assert_eq!(co.rules[0].pattern, "*.md");
    assert_eq!(
        co.rules[0].owners,
        vec![
            Owner::Handle("@docs".to_string()),
            Owner::Handle("@extra".to_string()),
        ]
    );
}

/// Carriage-return line endings do not leak into patterns or owners.
#[test]
fn test_crlf_line_endings() {
    let co = parse("*.js @a\r\n*.go @b\r\n").unwrap();
    assert_eq!(co.rules.len(), 2);
    assert_eq!(co.rules[1].pattern, "*.go");
    assert_eq!(co.rules[1].owners, vec![Owner::Handle("@b".to_string())]);
    assert!(co.matches("x.go").is_some());
}

/// Tables and rules compare by pattern and owners; the compiled
/// matchers take no part in equality.
#[test]
fn test_rule_equality_ignores_matchers() {
    let a = Rule::parse("*.md @docs").unwrap();
    let mut b = Rule::parse("*.md @docs").unwrap();
    b.matchers.clear();
    assert_eq!(a, b);
    let c = Rule::parse("*.md @other").unwrap();
    assert!(a != c);
    let t1 = parse("*.md @docs\n").unwrap();
    let t2 = parse("*.md @docs\n").unwrap();
    assert_eq!(t1, t2);
}
