use citygen::language2::templater2::render_template;
use citygen::language2::Dictionary;

fn metals() -> Dictionary {
    let mut dict = Dictionary::new();
    dict.parse_datafile_line(String::from("Gold, NOUN, HAS_GROUP(Metal)"));
    dict.parse_datafile_line(String::from("Fine, ADJECTIVE, HAS_GROUP(Quality)"));
    dict
}

#[test]
fn group_template_keeps_lead_and_tail_text() {
    assert_eq!(render_template("a NOUN_OR(Metal)!", &metals()), "a Gold!");
}

#[test]
fn group_template_drops_keyword_letters_before_a_match() {
    // `T` is one of the keyword letters, so no match starts at it.
    assert_eq!(render_template("The NOUN_AND(Metal)", &metals()), "he Gold");
}

#[test]
fn group_template_token_of_no_kind_gives_nothing() {
    assert_eq!(render_template("Buy OR(x) now", &metals()), "Buy  now");
}

#[test]
fn group_template_without_tokens_is_empty() {
    assert_eq!(render_template("plain text", &metals()), "");
}

#[test]
fn group_template_adjective_or() {
    assert_eq!(render_template("ADJECTIVE_OR(Quality)", &metals()), "Fine");
}

/// The token grammar as a regular expression of the `regex` crate: the
/// renderer must cut a template into the same pieces.
const GRAMMAR: &str = r"([^NOUN_AND|^NOUN_OR|^ADJECTIVE_AND|^ADJECTIVE_OR]*)([NOUN_AND|NOUN_OR|ADJECTIVE_AND|ADJECTIVE_OR]+\([a-zA-Z ,-:]+\))([^(NOUN_AND|NOUN_OR|ADJECTIVE_AND|ADJECTIVE_OR)]*)";

fn word_for(token: &str) -> &'static str {
    if token.contains("NOUN_AND(") || token.contains("NOUN_OR(") {
        "Gold"
    } else if token.contains("ADJECTIVE_AND(") || token.contains("ADJECTIVE_OR(") {
        "Fine"
    } else {
        ""
    }
}

fn expected(template: &str) -> String {
    let re = regex::Regex::new(GRAMMAR).unwrap();
    let mut out = String::new();
    for m in re.find_iter(template) {
        let caps = re.captures(m.as_str()).unwrap();
        out.push_str(caps.get(1).map_or("", |c| c.as_str()));
        out.push_str(word_for(caps.get(2).unwrap().as_str()));
        out.push_str(caps.get(3).map_or("", |c| c.as_str()));
    }
    out
}

#[test]
fn group_template_cuts_as_the_grammar_does() {
    let dict = metals();
    let samples = [
        "ADJECTIVE_AND(Quality) NOUN_AND(Metal) Harpoon",
        "The NOUN_AND(Metal)",
        "a NOUN_OR(Metal)!",
        "Buy OR(x) now",
        "plain text",
        "x (NOUN_AND(Metal)) y",
        "NOUN_AND(Metal)NOUN_AND(Metal)",
        "lower ADJECTIVE_OR(Quality) and NOUN_AND(Metal) end",
        "^NOUN_AND(Metal)^",
        "1,2 NOUN_AND(Metal) 3:4",
        "ADJECTIVE_AND(Quality)x NOUN_OR(Metal)",
    ];
    for t in samples {
        assert_eq!(render_template(t, &dict), expected(t), "template {:?}", t);
    }
}
