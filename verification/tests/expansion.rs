//! The expansion of variable references.

use steelbx::expand::{expand_env, is_referred_to};
use steelbx::vars::Vars;

fn vars(pairs: &[(&str, &str)]) -> Vars {
    let mut v = Vars::new();
    for (k, x) in pairs {
        v.insert(k.to_string(), x.to_string());
    }
    v
}

fn expand(value: &str, env: &Vars) -> Result<String, String> {
    expand_env(value, env, "t").map_err(|e| e.message)
}

#[test]
fn expansion_bare_and_braced_refs() {
    let mut env = vars(&[("FOO", "bar")]);
    assert_eq!(expand("no dollar signs", &env).unwrap(), "no dollar signs");
    assert_eq!(expand("$FOO", &env).unwrap(), "bar");
    assert_eq!(expand("${FOO}", &env).unwrap(), "bar");
    assert_eq!(expand("pre-$FOO-post", &env).unwrap(), "pre-bar-post");
    assert_eq!(expand("pre-${FOO}post", &env).unwrap(), "pre-barpost");
    assert_eq!(expand("$$", &env).unwrap(), "$");
    assert_eq!(expand("$$FOO", &env).unwrap(), "$FOO");
    // A value that holds a dollar sign is not scanned again.
    env.insert("RAW".to_string(), "$FOO".to_string());
    assert_eq!(expand("$RAW", &env).unwrap(), "$FOO");
}

#[test]
fn expansion_empty_and_fallbacks() {
    let env = vars(&[("FOO", "bar"), ("EMPTY", "")]);
    assert_eq!(expand("${EMPTY}", &env).unwrap(), "");
    assert_eq!(expand("${NOFALL:-x}", &env).unwrap(), "x");
    assert_eq!(expand("${EMPTY:-x}", &env).unwrap(), "x");
    assert_eq!(expand("${FOO:-x}", &env).unwrap(), "bar");
    // The fallback is literal, up to the first `}`.
    assert_eq!(expand("${NOFALL:-a$$b}c}", &env).unwrap(), "a$$bc}");
}

#[test]
fn expansion_bad_dollars_are_errors() {
    let env = Vars::new();
    assert!(expand("$UNSET", &env).is_err());
    assert!(expand("${:-x}", &env).is_err());
    assert!(expand("trailing $", &env).is_err());
    assert!(expand("$(shell)", &env).is_err());
    assert!(expand("${UNCLOSED", &env).is_err());
}

#[test]
fn messages_name_the_value_and_the_variable() {
    let env = Vars::new();
    assert_eq!(
        expand("$UNSET", &env).unwrap_err(),
        "t: references unset variable \"UNSET\""
    );
    assert_eq!(
        expand("${:-x}", &env).unwrap_err(),
        "t: \"\" is not a valid variable name"
    );
    assert_eq!(
        expand("${A-B}", &env).unwrap_err(),
        "t: \"A-B\" is not a valid variable name"
    );
    assert_eq!(
        expand("${UNCLOSED", &env).unwrap_err(),
        "t: unterminated ${...} reference (no closing }"
    );
    assert_eq!(
        expand("a $ b", &env).unwrap_err(),
        "t: '$' must introduce $IDENT, ${IDENT} (optionally ${IDENT:-default}), or $$ (a literal dollar)"
    );
    // Special characters of a name are escaped in the message.
    assert_eq!(
        expand("${a\"b}", &env).unwrap_err(),
        "t: \"a\\\"b\" is not a valid variable name"
    );
}

#[test]
fn a_bare_reference_has_no_fallback() {
    let env = vars(&[("FOO", "bar")]);
    assert_eq!(expand("$FOO:-x", &env).unwrap(), "bar:-x");
}

#[test]
fn a_name_ends_where_no_name_character_follows() {
    let env = vars(&[("A_1", "x"), ("A", "y")]);
    assert_eq!(expand("$A_1é$A.$A", &env).unwrap(), "xéy.y");
}

#[test]
fn an_empty_fallback_is_a_fallback() {
    let env = vars(&[("EMPTY", "")]);
    assert_eq!(expand("<${NONE:-}><${EMPTY:-}>", &env).unwrap(), "<><>");
    // Only the first mark separates the name from the fallback.
    assert_eq!(expand("${NONE:-a:-b}", &env).unwrap(), "a:-b");
}

#[test]
fn the_first_failure_is_reported() {
    let env = vars(&[("A", "1")]);
    assert_eq!(
        expand("$A$B$C", &env).unwrap_err(),
        "t: references unset variable \"B\""
    );
}

#[test]
fn doubled_dollars_expand_to_the_text_they_came_from() {
    let env = vars(&[("A", "1")]);
    for text in ["", "$", "$A", "a$b$$c", "${A:-x}", "é$"] {
        assert_eq!(expand(&text.replace('$', "$$"), &env).unwrap(), text);
    }
}

#[test]
fn a_later_binding_hides_an_earlier_one() {
    let mut env = vars(&[("A", "1"), ("B", "2")]);
    env.insert("A".to_string(), "3".to_string());
    assert_eq!(env.get("A").map(String::as_str), Some("3"));
    assert_eq!(env.get("B").map(String::as_str), Some("2"));
    assert_eq!(env.get("C"), None);
    let copy = env.copy();
    env.insert("B".to_string(), "4".to_string());
    assert_eq!(copy.get("A").map(String::as_str), Some("3"));
    assert_eq!(copy.get("B").map(String::as_str), Some("2"));
}

#[test]
fn a_name_counts_only_where_it_is_referred_to() {
    for value in ["$A", "${A}", "x$A-y", "${A:-z}", "$B$A", "${B}/${A}", "$$$A", "$(x)$A", "${:-$A}${A}"] {
        assert!(is_referred_to(value, "A"), "{value}");
    }
    for value in ["", "A", "src=A", "$$A", "$AB", "$BA", "${AB}", "${B:-A}", "$$${B}A", "$", "${A"] {
        assert!(!is_referred_to(value, "A"), "{value}");
    }
    // A variable that a value does not refer to does not matter to it.
    let with = vars(&[("A", "1"), ("B", "2")]);
    let without = vars(&[("B", "2")]);
    for value in ["A$B", "$$A", "${B:-A}"] {
        assert_eq!(expand(value, &with).unwrap(), expand(value, &without).unwrap());
    }
}

#[test]
fn expansions_stand_one_behind_the_other() {
    let env = vars(&[("A", "1"), ("AB", "2")]);
    let values = ["", "x", "$A", "${A}", "$$", "${N:-d}", "-$A-"];
    for a in values {
        for b in ["", "-", "$A", "${A}b", "$$", " x"] {
            let both = expand(a, &env).unwrap() + &expand(b, &env).unwrap();
            assert_eq!(expand(&format!("{a}{b}"), &env).unwrap(), both, "{a} {b}");
        }
    }
    // A name takes in what can belong to it.
    assert_eq!(expand("$AB", &env).unwrap(), "2");
}
