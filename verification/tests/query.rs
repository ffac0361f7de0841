use cuely::query::parser::{parse, parse_term, Term, BANG_PREFIX};
use cuely::query::words::{is_whitespace, split_whitespace};

fn simple(text: &str) -> Box<Term> {
    Box::new(Term::Simple(text.to_string()))
}

#[test]
fn parse_not() {
    assert_eq!(
        parse("this -that"),
        vec![
            Box::new(Term::Simple("this".to_string())),
            Box::new(Term::Not(Box::new(Term::Simple("that".to_string()))))
        ]
    );

    assert_eq!(
        parse("this -"),
        vec![
            Box::new(Term::Simple("this".to_string())),
            Box::new(Term::Simple("-".to_string()))
        ]
    );
}

#[test]
fn double_not() {
    assert_eq!(
        parse("this --that"),
        vec![
            Box::new(Term::Simple("this".to_string())),
            Box::new(Term::Simple("--that".to_string()))
        ]
    );
}

#[test]
fn site() {
    assert_eq!(
        parse("this site:test.com"),
        vec![
            Box::new(Term::Simple("this".to_string())),
            Box::new(Term::Site("test.com".to_string()))
        ]
    );
}

#[test]
fn title() {
    assert_eq!(
        parse("this intitle:test"),
        vec![
            Box::new(Term::Simple("this".to_string())),
            Box::new(Term::Title("test".to_string()))
        ]
    );
}

#[test]
fn body() {
    assert_eq!(
        parse("this inbody:test"),
        vec![
            Box::new(Term::Simple("this".to_string())),
            Box::new(Term::Body("test".to_string()))
        ]
    );
}

#[test]
fn url() {
    assert_eq!(
        parse("this inurl:test"),
        vec![
            Box::new(Term::Simple("this".to_string())),
            Box::new(Term::Url("test".to_string()))
        ]
    );
}

#[test]
fn bang() {
    assert_eq!(BANG_PREFIX, '!');
    assert_eq!(
        parse("!g weather"),
        vec![Box::new(Term::PossibleBang("g".to_string())), simple("weather")]
    );
    assert_eq!(parse("!"), vec![Box::new(Term::PossibleBang(String::new()))]);
    assert_eq!(parse("wow!"), vec![simple("wow!")]);
}

#[test]
fn keyword_without_operand() {
    for word in ["site:", "intitle:", "inbody:", "inurl:"] {
        assert_eq!(parse(word), vec![simple(word)]);
        assert_eq!(
            parse(&format!("-{}", word)),
            vec![Box::new(Term::Not(simple(word)))]
        );
    }
}

#[test]
fn negated_keywords() {
    assert_eq!(
        parse("-site:a.com -!b -intitle:c -inbody:d -inurl:e"),
        vec![
            Box::new(Term::Not(Box::new(Term::Site("a.com".to_string())))),
            Box::new(Term::Not(Box::new(Term::PossibleBang("b".to_string())))),
            Box::new(Term::Not(Box::new(Term::Title("c".to_string())))),
            Box::new(Term::Not(Box::new(Term::Body("d".to_string())))),
            Box::new(Term::Not(Box::new(Term::Url("e".to_string())))),
        ]
    );
}

#[test]
fn keywords_are_case_sensitive_and_stand_at_the_start() {
    assert_eq!(parse("Site:a xsite:b site"), vec![
        simple("Site:a"),
        simple("xsite:b"),
        simple("site"),
    ]);
    assert_eq!(parse("site:site:a"), vec![Box::new(Term::Site("site:a".to_string()))]);
    assert_eq!(parse("!-a"), vec![Box::new(Term::PossibleBang("-a".to_string()))]);
}

#[test]
fn letters_of_every_alphabet() {
    assert_eq!(
        parse("-sm\u{f8}rrebr\u{f8}d site:\u{4f8b}\u{3048} \u{1f600}"),
        vec![
            Box::new(Term::Not(simple("sm\u{f8}rrebr\u{f8}d"))),
            Box::new(Term::Site("\u{4f8b}\u{3048}".to_string())),
            simple("\u{1f600}"),
        ]
    );
}

#[test]
fn written_term_is_the_word_it_was_parsed_from() {
    let words = [
        "this", "-that", "-", "--that", "-site:x", "site:", "site:test.com", "intitle:a",
        "inbody:b", "inurl:c", "!g", "!", "-!g", "", "-intitle:", "a-b", "\u{e9}t\u{e9}",
    ];
    for word in words {
        let term = parse_term(word);
        assert_eq!(term.to_string(), word);
        assert_eq!(parse_term(&term.to_string()), term);
    }
    assert_eq!(
        Term::Not(Box::new(Term::Not(simple("x")))).to_string(),
        "--x"
    );
}

#[test]
fn clone_is_the_same_term() {
    for word in ["-site:x", "!g", "intitle:a", "inbody:b", "inurl:c", "w"] {
        let term = parse_term(word);
        assert_eq!(term.clone(), term);
    }
}

#[test]
fn rewritten_query_has_the_same_terms() {
    for query in ["this -that  site:test.com\t!g --x", "", "  ", "one", " one\ntwo "] {
        let terms = parse(query);
        let mut rewritten = String::new();
        for term in terms.iter() {
            rewritten.push_str(&term.to_string());
            rewritten.push(' ');
        }
        assert_eq!(parse(&rewritten), terms);
    }
}

#[test]
fn query_is_parsed_word_by_word() {
    let mut both = parse("this -that");
    both.extend(parse("site:x  !g"));
    assert_eq!(parse("this -that\u{3000}site:x  !g"), both);
}

#[test]
fn white_space_alone_has_no_terms() {
    assert_eq!(parse(""), Vec::<Box<Term>>::new());
    assert_eq!(parse(" \t\r\n\u{a0}\u{2003}"), Vec::<Box<Term>>::new());
    assert_eq!(parse("\u{200b}").len(), 1);
}

#[test]
fn white_space_is_what_std_says() {
    for code in 0u32..=0x10ffff {
        if let Some(c) = char::from_u32(code) {
            assert_eq!(is_whitespace(c), c.is_whitespace(), "{:x}", code);
        }
    }
}

#[test]
fn words_are_what_std_says() {
    let texts = [
        "", " ", "a", " a", "a ", "a b", "  a\t\tb\u{85}c\u{2028}d ", "a\u{200b}b",
        "\u{3000}\u{e6}\u{f8}\u{e5}\u{1680}x",
    ];
    for text in texts {
        let expected: Vec<String> = text.split_whitespace().map(|w| w.to_string()).collect();
        assert_eq!(split_whitespace(text), expected);
    }
}
