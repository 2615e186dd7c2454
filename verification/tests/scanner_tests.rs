use just_lang::scanner::Scanner;

fn words(source: &str) -> Vec<String> {
    Scanner::new(source.to_string()).text
}

#[test]
fn empty_text_has_no_words() {
    assert!(words("").is_empty());
}

#[test]
fn text_of_delimiters_only_has_no_words() {
    assert!(words(" \n;, ,;\n ").is_empty());
}

#[test]
fn splits_on_spaces() {
    assert_eq!(words("let x = 1"), vec!["let", "x", "=", "1"]);
}

#[test]
fn splits_on_each_delimiter() {
    assert_eq!(words("a b\nc;d,e"), vec!["a", "b", "c", "d", "e"]);
}

#[test]
fn runs_of_delimiters_collapse() {
    assert_eq!(words("  a  ;;  b,,\n\nc  "), vec!["a", "b", "c"]);
}

#[test]
fn a_tab_is_no_delimiter() {
    assert_eq!(words("a\tb c"), vec!["a\tb", "c"]);
}

#[test]
fn last_word_needs_no_delimiter() {
    assert_eq!(words("one;two"), vec!["one", "two"]);
}

#[test]
fn words_keep_characters_beyond_ascii() {
    assert_eq!(words("héllo wörld;日本"), vec!["héllo", "wörld", "日本"]);
}

#[test]
fn no_word_is_empty_or_holds_a_delimiter() {
    for word in words("let a = [1, 2, 3];\nlet b = \"x y\";;") {
        assert!(!word.is_empty());
        assert!(!word.contains(|c| c == ' ' || c == '\n' || c == ';' || c == ','));
    }
}

#[test]
fn scanning_twice_gives_the_same_words() {
    assert_eq!(words("let x = 1; let y = 2"), words("let x = 1; let y = 2"));
}

#[test]
fn words_keep_the_characters_that_are_no_delimiters() {
    let source = "let a = [1, 2];;\n\n let  b =\"x, y\" ,";
    let kept: String =
        source.chars().filter(|c| !(*c == ' ' || *c == '\n' || *c == ';' || *c == ',')).collect();
    assert_eq!(words(source).concat(), kept);
    assert_eq!(
        words(source),
        vec!["let", "a", "=", "[1", "2]", "let", "b", "=\"x", "y\""]
    );
}

#[test]
fn word_by_itself_is_one_word() {
    assert_eq!(words("hello"), vec!["hello"]);
    assert_eq!(words("[1+2]\"x\""), vec!["[1+2]\"x\""]);
}

#[test]
fn delimiter_parts_the_text() {
    let before = "let a = 1";
    let behind = " let b = \"x y\"";
    for delimiter in [' ', '\n', ';', ','] {
        let whole = format!("{}{}{}", before, delimiter, behind);
        let mut parts = words(before);
        parts.extend(words(behind));
        assert_eq!(words(&whole), parts);
    }
}
