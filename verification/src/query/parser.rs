//! The query language: a query is a list of terms, and the way a term begins
//! says what it asks for.

use crate::query::words::{
    contents, is_white_space, law_no_words_iff_white, law_only_white_space_is_lost,
    law_spaced_words_are_found, law_text_without_white_space_is_one_word, law_words_are_words,
    law_words_split_at_white, spaced, split_whitespace, words,
};
use vstd::prelude::*;

verus! {

/// The character that a bang begins with.
pub const BANG_PREFIX: char = '!';

/// One term of a query.
#[derive(Debug, PartialEq, Eq, Hash)]
pub enum Term {
    /// A word to be found anywhere.
    Simple(String),
    /// A term that must not match.
    Not(Box<Term>),
    /// A site to search on.
    Site(String),
    /// A word of the title.
    Title(String),
    /// A word of the body.
    Body(String),
    /// A word of the url.
    Url(String),
    /// What may turn out to be a bang.
    PossibleBang(String),
}

/// What a [`Term`] holds, with its strings as sequences of characters.
pub enum TermView {
    Simple(Seq<char>),
    Not(Box<TermView>),
    Site(Seq<char>),
    Title(Seq<char>),
    Body(Seq<char>),
    Url(Seq<char>),
    PossibleBang(Seq<char>),
}

impl Term {
    /// The contents of the term.
    pub open spec fn model(self) -> TermView
        decreases self,
    {
        match self {
            Term::Simple(s) => TermView::Simple(s@),
            Term::Not(t) => TermView::Not(Box::new((*t).model())),
            Term::Site(s) => TermView::Site(s@),
            Term::Title(s) => TermView::Title(s@),
            Term::Body(s) => TermView::Body(s@),
            Term::Url(s) => TermView::Url(s@),
            Term::PossibleBang(s) => TermView::PossibleBang(s@),
        }
    }
}

impl View for Term {
    type V = TermView;

    open spec fn view(&self) -> TermView {
        self.model()
    }
}

impl Clone for Term {
    fn clone(&self) -> (r: Self)
        ensures
            r@ == self@,
        decreases self,
    {
        match self {
            Term::Simple(s) => Term::Simple(s.clone()),
            Term::Not(t) => Term::Not(Box::new((&**t).clone())),
            Term::Site(s) => Term::Site(s.clone()),
            Term::Title(s) => Term::Title(s.clone()),
            Term::Body(s) => Term::Body(s.clone()),
            Term::Url(s) => Term::Url(s.clone()),
            Term::PossibleBang(s) => Term::PossibleBang(s.clone()),
        }
    }
}

/// The contents of a list of terms.
pub open spec fn term_views(terms: Seq<Box<Term>>) -> Seq<TermView> {
    terms.map_values(|t: Box<Term>| (*t)@)
}

/// What stands behind `prefix` in `s`, where `s` begins with `prefix`.
pub open spec fn stripped(s: Seq<char>, prefix: Seq<char>) -> Option<Seq<char>> {
    if prefix.is_prefix_of(s) {
        Some(s.skip(prefix.len() as int))
    } else {
        None
    }
}

/// The text of a term, as a query writes it.
pub open spec fn written(t: TermView) -> Seq<char>
    decreases t,
{
    match t {
        TermView::Simple(s) => s,
        TermView::Not(sub) => "-"@ + written(*sub),
        TermView::Site(s) => "site:"@ + s,
        TermView::Title(s) => "intitle:"@ + s,
        TermView::Body(s) => "inbody:"@ + s,
        TermView::Url(s) => "inurl:"@ + s,
        TermView::PossibleBang(s) => seq![BANG_PREFIX] + s,
    }
}

/// What stands behind `keyword` in `s`, where `s` begins with `keyword` and goes on.
pub open spec fn operand(s: Seq<char>, keyword: Seq<char>) -> Option<Seq<char>> {
    if keyword.is_prefix_of(s) && s.len() > keyword.len() {
        Some(s.skip(keyword.len() as int))
    } else {
        None
    }
}

/// The term that a word of a query stands for.
///
/// A minus negates what follows it, unless nothing or another minus follows. A keyword
/// takes what follows it, unless nothing does. A bang is only a possible one. All
/// other words, and the exceptions, are searched for as they are.
pub open spec fn term_of(s: Seq<char>) -> TermView
    decreases s.len(),
{
    if s.len() > 1 && s[0] == '-' && s[1] != '-' {
        TermView::Not(Box::new(term_of(s.skip(1))))
    } else if let Some(site) = operand(s, "site:"@) {
        TermView::Site(site)
    } else if let Some(title) = operand(s, "intitle:"@) {
        TermView::Title(title)
    } else if let Some(body) = operand(s, "inbody:"@) {
        TermView::Body(body)
    } else if let Some(url) = operand(s, "inurl:"@) {
        TermView::Url(url)
    } else if s.len() > 0 && s[0] == BANG_PREFIX {
        TermView::PossibleBang(s.skip(1))
    } else {
        TermView::Simple(s)
    }
}

/// The terms of a query: one for each of its words, in order.
pub open spec fn terms_of(query: Seq<char>) -> Seq<TermView> {
    words(query).map_values(|w: Seq<char>| term_of(w))
}

/// What parsing can give: a negated term is no negation and begins with no minus, and no
/// keyword is without its operand.
pub open spec fn is_parsed(t: TermView) -> bool
    decreases t,
{
    match t {
        TermView::Simple(s) => true,
        TermView::Not(sub) => {
            &&& !(*sub is Not)
            &&& written(*sub).len() > 0
            &&& written(*sub)[0] != '-'
            &&& is_parsed(*sub)
        },
        TermView::Site(s) => s.len() > 0,
        TermView::Title(s) => s.len() > 0,
        TermView::Body(s) => s.len() > 0,
        TermView::Url(s) => s.len() > 0,
        TermView::PossibleBang(s) => true,
    }
}

/// Writing a parsed term gives back the word that it was parsed from.
pub proof fn law_written_undoes_parsing(s: Seq<char>)
    ensures
        written(term_of(s)) == s,
    decreases s.len(),
{
    if s.len() > 1 && s[0] == '-' && s[1] != '-' {
        law_written_undoes_parsing(s.skip(1));
        reveal_strlit("-");
        assert("-"@ + s.skip(1) =~= s);
    }
    lemma_operand_rejoins(s, "site:"@);
    lemma_operand_rejoins(s, "intitle:"@);
    lemma_operand_rejoins(s, "inbody:"@);
    lemma_operand_rejoins(s, "inurl:"@);
    if s.len() > 0 {
        assert(seq![s[0]] + s.skip(1) =~= s);
    }
}

proof fn lemma_operand_rejoins(s: Seq<char>, keyword: Seq<char>)
    ensures
        operand(s, keyword) matches Some(rest) ==> keyword + rest == s,
{
    if keyword.is_prefix_of(s) {
        assert(keyword + s.skip(keyword.len() as int) =~= s);
    }
}

proof fn lemma_begins_with(s: Seq<char>, c: char)
    ensures
        seq![c].is_prefix_of(s) <==> s.len() > 0 && s[0] == c,
{
    if s.len() > 0 {
        assert(s.subrange(0, 1) =~= seq![s[0]]);
        assert(seq![c][0] == c);
        assert(s.subrange(0, 1)[0] == s[0]);
    }
}

/// A word begins with one of the keywords, the minus and the bang's character at most.
proof fn lemma_beginnings_differ(s: Seq<char>)
    ensures
        "site:"@.is_prefix_of(s) ==> s.len() >= 5 && s[0] == 's',
        "intitle:"@.is_prefix_of(s) ==> s.len() >= 8 && s[0] == 'i' && s[2] == 't',
        "inbody:"@.is_prefix_of(s) ==> s.len() >= 7 && s[0] == 'i' && s[2] == 'b',
        "inurl:"@.is_prefix_of(s) ==> s.len() >= 6 && s[0] == 'i' && s[2] == 'u',
{
    reveal_strlit("site:");
    reveal_strlit("intitle:");
    reveal_strlit("inbody:");
    reveal_strlit("inurl:");
    assert("site:"@.is_prefix_of(s) ==> s[0] == "site:"@[0]);
    assert("intitle:"@.is_prefix_of(s) ==> s[0] == "intitle:"@[0] && s[2] == "intitle:"@[2]);
    assert("inbody:"@.is_prefix_of(s) ==> s[0] == "inbody:"@[0] && s[2] == "inbody:"@[2]);
    assert("inurl:"@.is_prefix_of(s) ==> s[0] == "inurl:"@[0] && s[2] == "inurl:"@[2]);
}

/// A term that was parsed comes back when it is written and parsed again.
pub proof fn law_reparsing_gives_the_term_back(s: Seq<char>)
    ensures
        term_of(written(term_of(s))) == term_of(s),
{
    law_written_undoes_parsing(s);
}

/// No parsed term negates twice, and none has a keyword without an operand.
pub proof fn law_parsed_shape(s: Seq<char>)
    ensures
        is_parsed(term_of(s)),
    decreases s.len(),
{
    if s.len() > 1 && s[0] == '-' && s[1] != '-' {
        let rest = s.skip(1);
        law_parsed_shape(rest);
        law_written_undoes_parsing(rest);
        assert(rest[0] == s[1]);
    }
}

/// A query is parsed word by word: the terms of two queries with white space between
/// them are the terms of the one and then the terms of the other.
pub proof fn law_parsing_is_word_by_word(a: Seq<char>, c: char, b: Seq<char>)
    requires
        is_white_space(c),
    ensures
        terms_of(a + seq![c] + b) == terms_of(a) + terms_of(b),
{
    law_words_split_at_white(a, c, b);
    assert(terms_of(a + seq![c] + b) =~= terms_of(a) + terms_of(b));
}

/// A query has no terms if and only if all of it is white space.
pub proof fn law_no_terms_iff_white(query: Seq<char>)
    ensures
        terms_of(query).len() == 0 <==> (forall|i: int|
            0 <= i < query.len() ==> is_white_space(#[trigger] query[i])),
{
    law_no_words_iff_white(query);
}

/// The terms of a query, written one after the other with a space behind each, make up
/// a query with the same terms.
pub proof fn law_rewritten_query_has_the_same_terms(query: Seq<char>)
    ensures
        terms_of(spaced(terms_of(query).map_values(|t: TermView| written(t)))) == terms_of(query),
{
    let texts = terms_of(query).map_values(|t: TermView| written(t));
    assert forall|i: int| 0 <= i < texts.len() implies #[trigger] texts[i] == words(query)[i] by {
        law_written_undoes_parsing(words(query)[i]);
    }
    assert(texts =~= words(query));
    law_words_are_words(query);
    law_spaced_words_are_found(texts);
}

/// What stands behind `prefix` in `s`, where `s` begins with `prefix`.
fn strip_prefix<'a>(s: &'a str, prefix: &str) -> (r: Option<&'a str>)
    ensures
        match r {
            Some(rest) => stripped(s@, prefix@) == Some(rest@),
            None => stripped(s@, prefix@) is None,
        },
{
    let len: usize = s.unicode_len();
    let prefix_len: usize = prefix.unicode_len();
    if prefix_len > len {
        return None;
    }
    let start = s.substring_char(0, prefix_len);
    if start.to_string() != prefix.to_string() {
        assert(prefix@.is_prefix_of(s@) ==> start@ =~= prefix@);
        return None;
    }
    let rest = s.substring_char(prefix_len, len);
    assert(prefix@.is_prefix_of(s@));
    assert(rest@ =~= s@.skip(prefix_len as int));
    Some(rest)
}

impl Term {
    /// Writes the term as a query would.
    pub fn to_string(&self) -> (r: String)
        ensures
            r@ == written(self@),
        decreases self,
    {
        match self {
            Term::Simple(term) => term.clone(),
            Term::Not(term) => "-".to_string().concat(term.to_string().as_str()),
            Term::Site(site) => "site:".to_string().concat(site.as_str()),
            Term::Title(title) => "intitle:".to_string().concat(title.as_str()),
            Term::Body(body) => "inbody:".to_string().concat(body.as_str()),
            Term::Url(url) => "inurl:".to_string().concat(url.as_str()),
            Term::PossibleBang(bang) => {
                let mut text = String::new();
                text.push(BANG_PREFIX);
                text.append(bang.as_str());
                assert(text@ =~= seq![BANG_PREFIX] + bang@);
                text
            },
        }
    }
}

/// The term that one word of a query stands for.
pub fn parse_term(term: &str) -> (r: Box<Term>)
    ensures
        (*r)@ == term_of(term@),
    decreases term@.len(),
{
    proof {
        reveal_strlit("-");
        reveal_strlit("!");
        assert("-"@ =~= seq!['-']);
        assert("!"@ =~= seq![BANG_PREFIX]);
        lemma_begins_with(term@, '-');
        lemma_begins_with(term@, BANG_PREFIX);
        lemma_beginnings_differ(term@);
    }
    if let Some(not_term) = strip_prefix(term, "-") {
        if !not_term.is_empty() && not_term.get_char(0) != '-' {
            Box::new(Term::Not(parse_term(not_term)))
        } else {
            Box::new(Term::Simple(term.to_string()))
        }
    } else if let Some(site) = strip_prefix(term, "site:") {
        if !site.is_empty() {
            Box::new(Term::Site(site.to_string()))
        } else {
            Box::new(Term::Simple(term.to_string()))
        }
    } else if let Some(title) = strip_prefix(term, "intitle:") {
        if !title.is_empty() {
            Box::new(Term::Title(title.to_string()))
        } else {
            Box::new(Term::Simple(term.to_string()))
        }
    } else if let Some(body) = strip_prefix(term, "inbody:") {
        if !body.is_empty() {
            Box::new(Term::Body(body.to_string()))
        } else {
            Box::new(Term::Simple(term.to_string()))
        }
    } else if let Some(url) = strip_prefix(term, "inurl:") {
        if !url.is_empty() {
            Box::new(Term::Url(url.to_string()))
        } else {
            Box::new(Term::Simple(term.to_string()))
        }
    } else if let Some(bang) = strip_prefix(term, "!") {
        Box::new(Term::PossibleBang(bang.to_string()))
    } else {
        Box::new(Term::Simple(term.to_string()))
    }
}

/// Parses a query: every word of it gives one term.
pub fn parse(query: &str) -> (r: Vec<Box<Term>>)
    ensures
        term_views(r@) == terms_of(query@),
{
    let found = split_whitespace(query);
    let mut terms: Vec<Box<Term>> = Vec::new();
    for i in 0..found.len()
        invariant
            contents(found@) == words(query@),
            terms@.len() == i,
            forall|j: int|
                0 <= j < i ==> (*#[trigger] terms@[j])@ == term_of(contents(found@)[j]),
    {
        assert(contents(found@)[i as int] == found@[i as int]@);
        terms.push(parse_term(found[i].as_str()));
    }
    assert(term_views(terms@) =~= terms_of(query@));
    terms
}

/// A term is seen whole.
pub proof fn law_term_is_seen_whole(s: String, t: Term)
    ensures
        Term::Simple(s)@ == TermView::Simple(s@),
        Term::Not(Box::new(t))@ == TermView::Not(Box::new(t@)),
        Term::Site(s)@ == TermView::Site(s@),
        Term::Title(s)@ == TermView::Title(s@),
        Term::Body(s)@ == TermView::Body(s@),
        Term::Url(s)@ == TermView::Url(s@),
        Term::PossibleBang(s)@ == TermView::PossibleBang(s@),
{
    reveal_with_fuel(Term::model, 2);
}

/// The terms of a list are seen each of them, in order.
pub proof fn law_terms_are_seen_whole(terms: Seq<Box<Term>>)
    ensures
        term_views(terms).len() == terms.len(),
        forall|i: int| 0 <= i < terms.len() ==> #[trigger] term_views(terms)[i] == (*terms[i])@,
{
}

/// A term is written as its sign or keyword, if it has one, and then all of its text.
pub proof fn law_term_is_written_whole(s: Seq<char>, t: TermView)
    ensures
        written(TermView::Simple(s)) == s,
        written(TermView::Not(Box::new(t))) == seq!['-'] + written(t),
        written(TermView::Site(s)) == "site:"@ + s,
        written(TermView::Title(s)) == "intitle:"@ + s,
        written(TermView::Body(s)) == "inbody:"@ + s,
        written(TermView::Url(s)) == "inurl:"@ + s,
        written(TermView::PossibleBang(s)) == seq!['!'] + s,
{
    reveal_strlit("-");
    assert("-"@ =~= seq!['-']);
    reveal_with_fuel(written, 2);
}

/// A keyword takes all that follows it, if anything does.
pub proof fn law_keyword_takes_its_whole_operand(s: Seq<char>)
    requires
        s.len() > 0,
    ensures
        term_of("site:"@ + s) == TermView::Site(s),
        term_of("intitle:"@ + s) == TermView::Title(s),
        term_of("inbody:"@ + s) == TermView::Body(s),
        term_of("inurl:"@ + s) == TermView::Url(s),
{
    reveal_strlit("site:");
    reveal_strlit("intitle:");
    reveal_strlit("inbody:");
    reveal_strlit("inurl:");
    lemma_operand_of("site:"@, s);
    lemma_operand_of("intitle:"@, s);
    lemma_operand_of("inbody:"@, s);
    lemma_operand_of("inurl:"@, s);
    lemma_beginnings_differ("site:"@ + s);
    lemma_beginnings_differ("intitle:"@ + s);
    lemma_beginnings_differ("inbody:"@ + s);
    lemma_beginnings_differ("inurl:"@ + s);
}

proof fn lemma_operand_of(keyword: Seq<char>, s: Seq<char>)
    requires
        s.len() > 0,
    ensures
        operand(keyword + s, keyword) == Some(s),
{
    let whole = keyword + s;
    assert(whole.subrange(0, keyword.len() as int) =~= keyword);
    assert(whole.skip(keyword.len() as int) =~= s);
}

/// A minus negates all that follows it, unless that begins with a minus itself.
pub proof fn law_minus_negates_what_follows(s: Seq<char>)
    requires
        s.len() > 0,
        s[0] != '-',
    ensures
        term_of(seq!['-'] + s) == TermView::Not(Box::new(term_of(s))),
{
    assert((seq!['-'] + s).skip(1) =~= s);
}

/// What begins with the bang's character is a possible bang with all that follows it.
pub proof fn law_bang_takes_what_follows(s: Seq<char>)
    ensures
        term_of(seq!['!'] + s) == TermView::PossibleBang(s),
{
    let whole = seq!['!'] + s;
    lemma_beginnings_differ(whole);
    assert(whole[0] == '!');
    assert(whole.skip(1) =~= s);
}

/// Every word that is no negation, has no keyword with an operand and is no possible bang
/// is a simple term, whole: among them a minus with nothing or another minus behind it,
/// and a keyword with nothing behind it.
pub proof fn law_other_words_are_simple(s: Seq<char>)
    requires
        s.len() > 1 && s[0] == '-' ==> s[1] == '-',
        s.len() > 0 ==> s[0] != '!',
        forall|rest: Seq<char>| rest.len() > 0 ==> s != #[trigger] ("site:"@ + rest),
        forall|rest: Seq<char>| rest.len() > 0 ==> s != #[trigger] ("intitle:"@ + rest),
        forall|rest: Seq<char>| rest.len() > 0 ==> s != #[trigger] ("inbody:"@ + rest),
        forall|rest: Seq<char>| rest.len() > 0 ==> s != #[trigger] ("inurl:"@ + rest),
    ensures
        term_of(s) == TermView::Simple(s),
{
    lemma_operand_rejoins(s, "site:"@);
    lemma_operand_rejoins(s, "intitle:"@);
    lemma_operand_rejoins(s, "inbody:"@);
    lemma_operand_rejoins(s, "inurl:"@);
}

/// Nothing of a word is lost or added when a query is parsed: it has one term for each of
/// its words, in order, and the terms are written as exactly those words.
pub proof fn law_terms_are_the_words(query: Seq<char>)
    ensures
        terms_of(query).len() == words(query).len(),
        forall|i: int|
            0 <= i < words(query).len() ==> {
                &&& #[trigger] terms_of(query)[i] == term_of(words(query)[i])
                &&& written(terms_of(query)[i]) == words(query)[i]
            },
{
    assert forall|i: int| 0 <= i < words(query).len() implies {
        &&& #[trigger] terms_of(query)[i] == term_of(words(query)[i])
        &&& written(terms_of(query)[i]) == words(query)[i]
    } by {
        law_written_undoes_parsing(words(query)[i]);
    }
}

/// A query without white space has one term: the one that all of it stands for.
pub proof fn law_one_word_is_one_term(w: Seq<char>)
    requires
        w.len() > 0,
        forall|i: int| 0 <= i < w.len() ==> !is_white_space(#[trigger] w[i]),
    ensures
        terms_of(w) == seq![term_of(w)],
        written(terms_of(w)[0]) == w,
{
    law_text_without_white_space_is_one_word(w);
    law_written_undoes_parsing(w);
    assert(terms_of(w) =~= seq![term_of(w)]);
}

/// The terms of a query, written one after the other, have all its characters but the
/// white space.
pub proof fn law_parsing_loses_only_white_space(query: Seq<char>)
    ensures
        terms_of(query).map_values(|t: TermView| written(t)).flatten() == query.filter(
            |c: char| !is_white_space(c),
        ),
{
    law_terms_are_the_words(query);
    assert(terms_of(query).map_values(|t: TermView| written(t)) =~= words(query));
    law_only_white_space_is_lost(query);
}

} // verus!
