use cuely::query::analysis::{analyzed_words, field_words, get_tantivy_analyzer};
use cuely::query::parser::{parse_term, Term};
use cuely::query::plan::{
    tantivy_term_query, FieldTerm, IndexRecordOption, Occur, Query, UNIT_BOOST,
};
use cuely::query::schema::{
    find_field, Field, FieldEntry, FieldInfo, FieldType, TextFieldIndexing, TextOptions,
};
use tantivy::tokenizer::{RawTokenizer, TokenizerManager, WhitespaceTokenizer};

fn indexed(tokenizer: &str) -> FieldEntry {
    FieldEntry {
        field_type: FieldType::Str(TextOptions {
            indexing: Some(TextFieldIndexing { tokenizer: tokenizer.to_string() }),
        }),
    }
}

fn unindexed() -> FieldEntry {
    FieldEntry { field_type: FieldType::Str(TextOptions { indexing: None }) }
}

fn number() -> FieldEntry {
    FieldEntry { field_type: FieldType::Other }
}

fn info(field: Field, searchable: bool, boost: Option<f32>) -> FieldInfo {
    FieldInfo { field, searchable, boost: boost.map(|b| b.to_bits()) }
}

/// Numbers 0 to 6: title, body, url, host, domain, text of links, something else.
fn all_fields() -> Vec<FieldInfo> {
    vec![
        info(Field::Title, true, Some(50.0)),
        info(Field::AllBody, true, None),
        info(Field::Url, true, Some(1.5)),
        info(Field::Host, false, None),
        info(Field::Domain, false, Some(2.0)),
        info(Field::BacklinkText, false, Some(4.0)),
        info(Field::Other, false, None),
    ]
}

fn fields() -> Vec<(u32, FieldEntry)> {
    vec![
        (0, indexed("default")),
        (1, indexed("whitespace")),
        (2, indexed("raw")),
        (3, unindexed()),
        (4, indexed("missing")),
        (5, indexed("default")),
        (6, number()),
    ]
}

fn word(field: u32, text: &str) -> FieldTerm {
    FieldTerm { field, text: text.to_string() }
}

fn one(field: u32, text: &str, boost: f32) -> Query {
    Query::Boost(
        Box::new(Query::Term(word(field, text), IndexRecordOption::WithFreqsAndPositions)),
        boost.to_bits(),
    )
}

fn phrase(field: u32, texts: &[&str], boost: f32) -> Query {
    Query::Boost(
        Box::new(Query::Phrase(texts.iter().map(|t| word(field, t)).collect())),
        boost.to_bits(),
    )
}

fn ask(term: &Term) -> Option<Vec<(Occur, Query)>> {
    term.as_tantivy_query(&fields(), &all_fields(), &TokenizerManager::default())
}

#[test]
fn simple_term() {
    let expected = vec![
        (
            Occur::Must,
            Query::Boolean(vec![
                (Occur::Should, phrase(0, &["test", "com"], 50.0)),
                (Occur::Should, one(1, "Test.com", 1.0)),
                (Occur::Should, one(2, "Test.com", 1.5)),
            ]),
        ),
        (Occur::Should, phrase(5, &["test", "com"], 4.0)),
    ];
    assert_eq!(ask(&Term::Simple("Test.com".to_string())), Some(expected));
}

#[test]
fn one_token_is_a_term_and_more_are_a_phrase() {
    assert_eq!(
        ask(&Term::Title("Hello".to_string())),
        Some(vec![(Occur::Must, one(0, "hello", 50.0))])
    );
    assert_eq!(
        ask(&Term::Title("Hello-World now".to_string())),
        Some(vec![(Occur::Must, phrase(0, &["hello", "world", "now"], 50.0))])
    );
}

#[test]
fn body_and_url_terms() {
    assert_eq!(
        ask(&Term::Body("A b".to_string())),
        Some(vec![(Occur::Must, phrase(1, &["A", "b"], 1.0))])
    );
    assert_eq!(
        ask(&Term::Url("A b".to_string())),
        Some(vec![(Occur::Must, one(2, "A b", 1.5))])
    );
}

#[test]
fn site_term_is_searched_whole_without_a_tokenizer() {
    let expected = vec![(
        Occur::Must,
        Query::Boolean(vec![
            (Occur::Should, one(3, "Test.com", 1.0)),
            (Occur::Should, one(4, "Test.com", 2.0)),
        ]),
    )];
    assert_eq!(ask(&Term::Site("Test.com".to_string())), Some(expected));
}

#[test]
fn negation_forbids_what_the_term_asks_for() {
    for text in ["site:test.com", "intitle:a", "word", "!g"] {
        let term = parse_term(text);
        let negated = Term::Not(term.clone());
        let expected = vec![(Occur::MustNot, Query::Boolean(ask(&term).unwrap()))];
        assert_eq!(ask(&negated), Some(expected));
    }
    let twice = Term::Not(Box::new(Term::Not(parse_term("intitle:a"))));
    let inner = vec![(Occur::Must, one(0, "a", 50.0))];
    let expected = vec![(
        Occur::MustNot,
        Query::Boolean(vec![(Occur::MustNot, Query::Boolean(inner))]),
    )];
    assert_eq!(ask(&twice), Some(expected));
}

#[test]
fn possible_bang_is_searched_as_a_word() {
    let bang = Term::PossibleBang("g".to_string());
    let simple = Term::Simple("!g".to_string());
    assert_eq!(bang.searched_text(), "!g");
    assert_eq!(ask(&bang), ask(&simple));
    let clauses = ask(&bang).unwrap();
    assert_eq!(clauses[1], (Occur::Should, one(5, "g", 4.0)));
    match &clauses[0].1 {
        Query::Boolean(inner) => assert_eq!(inner[1], (Occur::Should, one(1, "!g", 1.0))),
        _ => panic!("not a boolean query"),
    }
}

#[test]
fn nothing_to_search_for() {
    assert_eq!(ask(&Term::Title("?!".to_string())), None);
    assert_eq!(ask(&Term::Simple("?!".to_string())), None);
    assert_eq!(ask(&Term::Not(Box::new(Term::Title("".to_string())))), None);
    assert!(ask(&Term::Url("?!".to_string())).is_some());
    assert!(ask(&Term::Site("?!".to_string())).is_some());
}

#[test]
fn boost_of_one_where_a_field_has_none() {
    assert_eq!(UNIT_BOOST, 1.0f32.to_bits());
    let words = vec!["x".to_string()];
    assert_eq!(
        tantivy_term_query(7, &info(Field::Other, false, None), &words),
        one(7, "x", 1.0)
    );
    assert_eq!(
        tantivy_term_query(7, &info(Field::Other, false, Some(0.0)), &words),
        one(7, "x", 0.0)
    );
}

#[test]
fn first_field_of_a_kind_is_used() {
    let all = all_fields();
    let fields = vec![(3, unindexed()), (1, unindexed()), (0, unindexed()), (0, number())];
    assert_eq!(find_field(&fields, &all, Field::Title), 2);
    let manager = TokenizerManager::default();
    assert_eq!(
        Term::Title("A b".to_string()).as_tantivy_query(&fields, &all, &manager),
        Some(vec![(Occur::Must, one(0, "A b", 50.0))])
    );
}

#[test]
fn fields_behind_the_one_that_is_looked_for_do_not_matter() {
    let all = all_fields();
    let fields = vec![(2, unindexed()), (99, number())];
    let manager = TokenizerManager::default();
    assert_eq!(
        Term::Url("a".to_string()).as_tantivy_query(&fields, &all, &manager),
        Some(vec![(Occur::Must, one(2, "a", 1.5))])
    );
}

#[test]
fn site_without_such_fields_matches_nothing() {
    let manager = TokenizerManager::default();
    let fields = vec![(0, unindexed())];
    assert_eq!(
        Term::Site("a".to_string()).as_tantivy_query(&fields, &all_fields(), &manager),
        Some(vec![(Occur::Must, Query::Boolean(Vec::new()))])
    );
}

#[test]
fn searchable_link_text_is_searched_twice() {
    let all = vec![info(Field::BacklinkText, true, None)];
    let fields = vec![(0, indexed("default"))];
    let manager = TokenizerManager::default();
    assert_eq!(
        Term::Simple("A".to_string()).as_tantivy_query(&fields, &all, &manager),
        Some(vec![
            (Occur::Must, Query::Boolean(vec![(Occur::Should, one(0, "a", 1.0))])),
            (Occur::Should, one(0, "a", 1.0)),
        ])
    );
}

#[test]
fn given_words_decide_the_query() {
    let words = vec![
        vec!["a".to_string(), "b".to_string()],
        vec!["c".to_string()],
        vec!["d".to_string()],
        Vec::new(),
        Vec::new(),
        vec!["e".to_string()],
        Vec::new(),
    ];
    let term = Term::Simple("whatever".to_string());
    assert_eq!(
        term.query_from_words(&fields(), &all_fields(), &words),
        vec![
            (
                Occur::Must,
                Query::Boolean(vec![
                    (Occur::Should, phrase(0, &["a", "b"], 50.0)),
                    (Occur::Should, one(1, "c", 1.0)),
                    (Occur::Should, one(2, "d", 1.5)),
                ]),
            ),
            (Occur::Should, one(5, "e", 4.0)),
        ]
    );
}

#[test]
fn only_searched_fields_matter() {
    let term = Term::Url("x".to_string());
    let searched = term.searched_fields(&fields(), &all_fields());
    assert_eq!(searched, vec![false, false, true, false, false, false, false]);
    let some = |text: &str| vec![text.to_string()];
    let first = vec![some("a"), some("b"), some("c"), some("d"), some("e"), some("f"), some("g")];
    let second = vec![some("z"), some("y"), some("c"), some("x"), some("w"), some("v"), some("u")];
    assert_eq!(
        term.query_from_words(&fields(), &all_fields(), &first),
        term.query_from_words(&fields(), &all_fields(), &second)
    );
    assert_eq!(
        Term::Simple("x".to_string()).searched_fields(&fields(), &all_fields()),
        vec![true, true, true, false, false, true, false]
    );
    assert_eq!(
        Term::Site("x".to_string()).searched_fields(&fields(), &all_fields()),
        vec![false, false, false, true, true, false, false]
    );
}

#[test]
fn tokenizers_are_looked_up_by_name() {
    let manager = TokenizerManager::default();
    assert!(get_tantivy_analyzer(&indexed("default"), &manager).is_some());
    assert!(get_tantivy_analyzer(&indexed("missing"), &manager).is_none());
    assert!(get_tantivy_analyzer(&unindexed(), &manager).is_none());
    assert!(get_tantivy_analyzer(&number(), &manager).is_none());
    assert_eq!(field_words("Ab, Cd", &indexed("default"), &manager), vec!["ab", "cd"]);
    assert_eq!(field_words("Ab, Cd", &indexed("whitespace"), &manager), vec!["Ab,", "Cd"]);
    assert_eq!(field_words("Ab, Cd", &indexed("raw"), &manager), vec!["Ab, Cd"]);
    assert_eq!(field_words("running", &indexed("en_stem"), &manager), vec!["run"]);
    assert_eq!(analyzed_words("Ab, Cd", None), vec!["Ab, Cd"]);
}

#[test]
fn given_manager_decides_which_tokenizer_is_found() {
    let usual = TokenizerManager::default();
    let empty = TokenizerManager::new();
    let own = TokenizerManager::new();
    own.register("default", WhitespaceTokenizer);
    own.register("mine", RawTokenizer);
    let words = |name: &str, manager: &TokenizerManager| {
        analyzed_words("Ab, Cd", get_tantivy_analyzer(&indexed(name), manager))
    };
    assert_eq!(words("default", &usual), vec!["ab", "cd"]);
    assert_eq!(words("default", &own), vec!["Ab,", "Cd"]);
    assert_eq!(words("default", &empty), vec!["Ab, Cd"]);
    assert_eq!(words("mine", &own), vec!["Ab, Cd"]);
    assert!(get_tantivy_analyzer(&indexed("mine"), &own).is_some());
    assert!(get_tantivy_analyzer(&indexed("mine"), &usual).is_none());

    let fields = vec![(0, indexed("default"))];
    let title = Term::Title("Ab, Cd".to_string());
    assert_eq!(
        title.as_tantivy_query(&fields, &all_fields(), &usual),
        Some(vec![(Occur::Must, phrase(0, &["ab", "cd"], 50.0))])
    );
    assert_eq!(
        title.as_tantivy_query(&fields, &all_fields(), &own),
        Some(vec![(Occur::Must, phrase(0, &["Ab,", "Cd"], 50.0))])
    );
    assert_eq!(
        title.as_tantivy_query(&fields, &all_fields(), &empty),
        Some(vec![(Occur::Must, one(0, "Ab, Cd", 50.0))])
    );
}

#[test]
fn term_knows_whether_its_fields_are_there() {
    let all = all_fields();
    let simple = Term::Simple("a".to_string());
    assert!(simple.has_its_fields(&fields(), &all));
    assert!(!simple.has_its_fields(&vec![(0, number())], &all));
    assert!(!simple.has_its_fields(&vec![(5, number()), (7, number())], &all));
    let site = Term::Site("a".to_string());
    assert!(site.has_its_fields(&Vec::new(), &all));
    assert!(!site.has_its_fields(&vec![(7, number())], &all));
    let title = Term::Not(Box::new(Term::Title("a".to_string())));
    assert!(title.has_its_fields(&vec![(1, number()), (0, number()), (7, number())], &all));
    assert!(!title.has_its_fields(&vec![(7, number()), (0, number())], &all));
    assert!(!Term::Body("a".to_string()).has_its_fields(&vec![(0, number())], &all));
    assert!(!Term::Url("a".to_string()).has_its_fields(&Vec::new(), &all));
}
