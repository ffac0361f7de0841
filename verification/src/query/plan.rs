//! What a term asks of the index.

use crate::query::analysis::{field_words, may_give};
use crate::query::parser::{
    law_keyword_takes_its_whole_operand, law_minus_negates_what_follows,
    law_written_undoes_parsing, term_of, Term, TermView, BANG_PREFIX,
};
use crate::query::schema::{
    all_known, are_all_known, can_find, can_find_field, find_field, info_at, is_known,
    lemma_picked, lemma_position, picked, position, tokenizer_of, Field, FieldEntry, FieldInfo,
};
use crate::query::words::contents;
use tantivy::tokenizer::TokenizerManager;
use vstd::prelude::*;

verus! {

/// The bits of the single precision number one: a match counts once.
pub const UNIT_BOOST: u32 = 0x3f80_0000;

/// What a clause of a boolean query means for a document.
#[derive(Debug, Clone, Copy, PartialEq, Eq, Structural)]
pub enum Occur {
    /// It counts if it matches.
    Should,
    /// It has to match.
    Must,
    /// It must not match.
    MustNot,
}

/// How much of what the index keeps of a term a query needs.
#[derive(Debug, Clone, Copy, PartialEq, Eq, Structural)]
pub enum IndexRecordOption {
    /// The documents.
    Basic,
    /// The documents, and how often the term is in each.
    WithFreqs,
    /// The documents, how often the term is in each, and where.
    WithFreqsAndPositions,
}

/// A word in a field, which is given by its number.
#[derive(Debug, PartialEq, Eq)]
pub struct FieldTerm {
    pub field: u32,
    pub text: String,
}

impl View for FieldTerm {
    type V = (u32, Seq<char>);

    open spec fn view(&self) -> (u32, Seq<char>) {
        (self.field, self.text@)
    }
}

/// A query to the index.
#[derive(Debug, PartialEq, Eq)]
pub enum Query {
    /// A combination of clauses.
    Boolean(Vec<(Occur, Query)>),
    /// A query whose matches count as much as the number with these bits says.
    Boost(Box<Query>, u32),
    /// Words one behind the other.
    Phrase(Vec<FieldTerm>),
    /// One word.
    Term(FieldTerm, IndexRecordOption),
}

/// What a [`Query`] holds.
pub enum QueryView {
    Boolean(Seq<(Occur, QueryView)>),
    Boost(Box<QueryView>, u32),
    Phrase(Seq<(u32, Seq<char>)>),
    Term((u32, Seq<char>), IndexRecordOption),
}

impl Query {
    /// The contents of the query.
    pub open spec fn model(self) -> QueryView
        decreases self,
    {
        match self {
            Query::Boolean(clauses) => QueryView::Boolean(clause_views(clauses@)),
            Query::Boost(query, boost) => QueryView::Boost(Box::new((*query).model()), boost),
            Query::Phrase(terms) => QueryView::Phrase(field_terms(terms@)),
            Query::Term(term, option) => QueryView::Term(term@, option),
        }
    }
}

impl View for Query {
    type V = QueryView;

    open spec fn view(&self) -> QueryView {
        self.model()
    }
}

/// The contents of a list of clauses.
pub open spec fn clause_views(clauses: Seq<(Occur, Query)>) -> Seq<(Occur, QueryView)>
    decreases clauses,
{
    if clauses.len() == 0 {
        seq![]
    } else {
        clause_views(clauses.drop_last()).push((clauses.last().0, clauses.last().1.model()))
    }
}

/// The contents of a list of words in fields.
pub open spec fn field_terms(terms: Seq<FieldTerm>) -> Seq<(u32, Seq<char>)> {
    terms.map_values(|t: FieldTerm| t@)
}

/// The contents of a list of lists of words.
pub open spec fn word_lists(words: Seq<Vec<String>>) -> Seq<Seq<Seq<char>>> {
    words.map_values(|w: Vec<String>| contents(w@))
}

/// The query for the words in a field: all of them one behind the other, or the one word
/// that there is, counting as much as the field counts.
pub open spec fn field_query(field: u32, info: FieldInfo, words: Seq<Seq<char>>) -> QueryView {
    let query = if words.len() > 1 {
        QueryView::Phrase(words.map_values(|w: Seq<char>| (field, w)))
    } else {
        QueryView::Term((field, words[0]), IndexRecordOption::WithFreqsAndPositions)
    };
    QueryView::Boost(
        Box::new(query),
        match info.boost {
            Some(boost) => boost,
            None => UNIT_BOOST,
        },
    )
}

/// The query for the words of field `i`.
pub open spec fn query_at(
    fields: Seq<(u32, FieldEntry)>,
    all: Seq<FieldInfo>,
    words: Seq<Seq<Seq<char>>>,
    i: int,
) -> QueryView {
    field_query(fields[i].0, info_at(fields, all, i), words[i])
}

/// The query for the words of the first field that is `field`.
pub open spec fn query_in_first(
    fields: Seq<(u32, FieldEntry)>,
    all: Seq<FieldInfo>,
    words: Seq<Seq<Seq<char>>>,
    field: Field,
) -> QueryView {
    query_at(fields, all, words, position(fields, all, field).unwrap())
}

/// One clause for each field that `pick` picks: it counts if its words match.
pub open spec fn any_of(
    fields: Seq<(u32, FieldEntry)>,
    all: Seq<FieldInfo>,
    words: Seq<Seq<Seq<char>>>,
    pick: spec_fn(FieldInfo) -> bool,
) -> Seq<(Occur, QueryView)> {
    picked(fields, all, pick).map_values(
        |i: int| (Occur::Should, query_at(fields, all, words, i)),
    )
}

/// The fields that a word is searched for in everywhere.
pub open spec fn is_searchable() -> spec_fn(FieldInfo) -> bool {
    |info: FieldInfo| info.searchable
}

/// The fields that name the site.
pub open spec fn names_site() -> spec_fn(FieldInfo) -> bool {
    |info: FieldInfo| info.field == Field::Domain || info.field == Field::Host
}

/// The clauses for a term, where the words of the fields are given.
///
/// A simple term has to match in some searchable field, and counts more if it is in the
/// text of a link to the page. A negated term must not match. A site has to match the
/// domain or the host. The other keywords have to match in their field. A possible bang is
/// searched for like a simple term.
pub open spec fn plan(
    t: TermView,
    fields: Seq<(u32, FieldEntry)>,
    all: Seq<FieldInfo>,
    words: Seq<Seq<Seq<char>>>,
) -> Seq<(Occur, QueryView)>
    decreases t,
{
    match t {
        TermView::Simple(_) | TermView::PossibleBang(_) => seq![
            (Occur::Must, QueryView::Boolean(any_of(fields, all, words, is_searchable()))),
            (Occur::Should, query_in_first(fields, all, words, Field::BacklinkText)),
        ],
        TermView::Not(sub) => seq![
            (Occur::MustNot, QueryView::Boolean(plan(*sub, fields, all, words))),
        ],
        TermView::Site(_) => seq![
            (Occur::Must, QueryView::Boolean(any_of(fields, all, words, names_site()))),
        ],
        TermView::Title(_) => seq![
            (Occur::Must, query_in_first(fields, all, words, Field::Title)),
        ],
        TermView::Body(_) => seq![
            (Occur::Must, query_in_first(fields, all, words, Field::AllBody)),
        ],
        TermView::Url(_) => seq![
            (Occur::Must, query_in_first(fields, all, words, Field::Url)),
        ],
    }
}

/// The text that a term searches for.
pub open spec fn searched_text(t: TermView) -> Seq<char>
    decreases t,
{
    match t {
        TermView::Simple(s) => s,
        TermView::Not(sub) => searched_text(*sub),
        TermView::Site(s) => s,
        TermView::Title(s) => s,
        TermView::Body(s) => s,
        TermView::Url(s) => s,
        TermView::PossibleBang(s) => seq![BANG_PREFIX] + s,
    }
}

/// Whether the fields that a term needs are there and known.
pub open spec fn can_plan(
    t: TermView,
    fields: Seq<(u32, FieldEntry)>,
    all: Seq<FieldInfo>,
) -> bool
    decreases t,
{
    match t {
        TermView::Simple(_) | TermView::PossibleBang(_) => {
            &&& all_known(fields, all)
            &&& can_find(fields, all, Field::BacklinkText)
        },
        TermView::Not(sub) => can_plan(*sub, fields, all),
        TermView::Site(_) => all_known(fields, all),
        TermView::Title(_) => can_find(fields, all, Field::Title),
        TermView::Body(_) => can_find(fields, all, Field::AllBody),
        TermView::Url(_) => can_find(fields, all, Field::Url),
    }
}

/// Whether the term is searched for in field `i`.
pub open spec fn searches(
    t: TermView,
    fields: Seq<(u32, FieldEntry)>,
    all: Seq<FieldInfo>,
    i: int,
) -> bool
    decreases t,
{
    match t {
        TermView::Simple(_) | TermView::PossibleBang(_) => {
            ||| is_searchable()(info_at(fields, all, i))
            ||| position(fields, all, Field::BacklinkText) == Some(i)
        },
        TermView::Not(sub) => searches(*sub, fields, all, i),
        TermView::Site(_) => names_site()(info_at(fields, all, i)),
        TermView::Title(_) => position(fields, all, Field::Title) == Some(i),
        TermView::Body(_) => position(fields, all, Field::AllBody) == Some(i),
        TermView::Url(_) => position(fields, all, Field::Url) == Some(i),
    }
}

/// Whether `words` has words for every field that the term is searched for in.
pub open spec fn has_words(
    t: TermView,
    fields: Seq<(u32, FieldEntry)>,
    all: Seq<FieldInfo>,
    words: Seq<Seq<Seq<char>>>,
) -> bool {
    &&& words.len() == fields.len()
    &&& forall|i: int|
        0 <= i < fields.len() && #[trigger] searches(t, fields, all, i) ==> words[i].len() > 0
}

/// Whether `words` is what the searched fields can take the term's text apart into, each
/// of them by its own tokenizer of those that the manager holds, and into one word at least.
pub open spec fn may_search_by(
    tokenizers: TokenizerManager,
    t: TermView,
    fields: Seq<(u32, FieldEntry)>,
    all: Seq<FieldInfo>,
    words: Seq<Seq<Seq<char>>>,
) -> bool {
    &&& has_words(t, fields, all, words)
    &&& forall|i: int|
        0 <= i < fields.len() && #[trigger] searches(t, fields, all, i) ==> may_give(
            tokenizers,
            fields[i].1,
            searched_text(t),
            words[i],
        )
}

proof fn lemma_clause_views(clauses: Seq<(Occur, Query)>)
    ensures
        clause_views(clauses).len() == clauses.len(),
        forall|i: int|
            0 <= i < clauses.len() ==> #[trigger] clause_views(clauses)[i] == (
                clauses[i].0,
                clauses[i].1@,
            ),
    decreases clauses.len(),
{
    if clauses.len() > 0 {
        lemma_clause_views(clauses.drop_last());
    }
}

/// The words, each in the field.
pub fn process_tantivy_term(words: &Vec<String>, field: u32) -> (r: Vec<FieldTerm>)
    ensures
        field_terms(r@) == contents(words@).map_values(|w: Seq<char>| (field, w)),
{
    let mut terms: Vec<FieldTerm> = Vec::new();
    for i in 0..words.len()
        invariant
            terms@.len() == i,
            forall|j: int| 0 <= j < i ==> (#[trigger] terms@[j])@ == (field, words@[j]@),
    {
        terms.push(FieldTerm { field, text: words[i].clone() });
    }
    assert(field_terms(terms@) =~= contents(words@).map_values(|w: Seq<char>| (field, w)));
    terms
}

/// The query for the words in a field.
pub fn tantivy_term_query(field: u32, info: &FieldInfo, words: &Vec<String>) -> (r: Query)
    requires
        words@.len() > 0,
    ensures
        r@ == field_query(field, *info, contents(words@)),
{
    let mut processed_terms = process_tantivy_term(words, field);
    let ghost terms = processed_terms@;
    assert(field_terms(terms).len() == contents(words@).len());
    let processed_query = if processed_terms.len() > 1 {
        Query::Phrase(processed_terms)
    } else {
        let term = processed_terms.pop().unwrap();
        assert(field_terms(terms)[0] == (field, contents(words@)[0]));
        Query::Term(term, IndexRecordOption::WithFreqsAndPositions)
    };
    assert(processed_query.model() == if contents(words@).len() > 1 {
        QueryView::Phrase(contents(words@).map_values(|w: Seq<char>| (field, w)))
    } else {
        QueryView::Term((field, contents(words@)[0]), IndexRecordOption::WithFreqsAndPositions)
    });
    let boost: u32 = match info.boost {
        Some(boost) => boost,
        None => UNIT_BOOST,
    };
    Query::Boost(Box::new(processed_query), boost)
}

/// Which fields `test` picks, where it tells what `pick` picks.
fn fields_that(
    fields: &Vec<(u32, FieldEntry)>,
    all_fields: &Vec<FieldInfo>,
    test: impl Fn(&FieldInfo) -> bool,
    Ghost(pick): Ghost<spec_fn(FieldInfo) -> bool>,
) -> (r: Vec<bool>)
    requires
        all_known(fields@, all_fields@),
        forall|info: &FieldInfo| #[trigger] call_requires(test, (info,)),
        forall|info: &FieldInfo, r: bool| #[trigger]
            call_ensures(test, (info,), r) ==> r == pick(*info),
    ensures
        r@.len() == fields@.len(),
        forall|i: int|
            0 <= i < fields@.len() ==> #[trigger] r@[i] == pick(info_at(fields@, all_fields@, i)),
{
    let mut chosen: Vec<bool> = Vec::new();
    for i in 0..fields.len()
        invariant
            all_known(fields@, all_fields@),
            forall|info: &FieldInfo| #[trigger] call_requires(test, (info,)),
            forall|info: &FieldInfo, r: bool| #[trigger]
                call_ensures(test, (info,), r) ==> r == pick(*info),
            chosen@.len() == i,
            forall|j: int|
                0 <= j < i ==> #[trigger] chosen@[j] == pick(info_at(fields@, all_fields@, j)),
    {
        assert(is_known(fields@, all_fields@, i as int));
        chosen.push(test(&all_fields[fields[i].0 as usize]));
    }
    chosen
}

/// Which fields are searchable.
fn searchable_fields(fields: &Vec<(u32, FieldEntry)>, all_fields: &Vec<FieldInfo>) -> (r: Vec<bool>)
    requires
        all_known(fields@, all_fields@),
    ensures
        r@.len() == fields@.len(),
        forall|i: int|
            0 <= i < fields@.len() ==> #[trigger] r@[i] == is_searchable()(
                info_at(fields@, all_fields@, i),
            ),
{
    let test = |info: &FieldInfo| -> (r: bool)
        ensures
            r == is_searchable()(*info),
        { info.searchable };
    fields_that(fields, all_fields, test, Ghost(is_searchable()))
}

/// Which fields name the site.
fn site_fields(fields: &Vec<(u32, FieldEntry)>, all_fields: &Vec<FieldInfo>) -> (r: Vec<bool>)
    requires
        all_known(fields@, all_fields@),
    ensures
        r@.len() == fields@.len(),
        forall|i: int|
            0 <= i < fields@.len() ==> #[trigger] r@[i] == names_site()(
                info_at(fields@, all_fields@, i),
            ),
{
    let test = |info: &FieldInfo| -> (r: bool)
        ensures
            r == names_site()(*info),
        { info.field == Field::Domain || info.field == Field::Host };
    fields_that(fields, all_fields, test, Ghost(names_site()))
}

/// The clauses that search for the words in every chosen field, where those are chosen
/// that `pick` picks.
fn search_any(
    fields: &Vec<(u32, FieldEntry)>,
    all_fields: &Vec<FieldInfo>,
    words: &Vec<Vec<String>>,
    chosen: &Vec<bool>,
    Ghost(pick): Ghost<spec_fn(FieldInfo) -> bool>,
) -> (r: Vec<(Occur, Query)>)
    requires
        all_known(fields@, all_fields@),
        words@.len() == fields@.len(),
        chosen@.len() == fields@.len(),
        forall|i: int|
            0 <= i < fields@.len() ==> {
                &&& #[trigger] chosen@[i] == pick(info_at(fields@, all_fields@, i))
                &&& chosen@[i] ==> words@[i]@.len() > 0
            },
    ensures
        clause_views(r@) == any_of(fields@, all_fields@, word_lists(words@), pick),
{
    let mut clauses: Vec<(Occur, Query)> = Vec::new();
    let ghost lists = word_lists(words@);
    for i in 0..fields.len()
        invariant
            all_known(fields@, all_fields@),
            words@.len() == fields@.len(),
            chosen@.len() == fields@.len(),
            lists == word_lists(words@),
            forall|j: int|
                0 <= j < fields@.len() ==> {
                    &&& #[trigger] chosen@[j] == pick(info_at(fields@, all_fields@, j))
                    &&& chosen@[j] ==> words@[j]@.len() > 0
                },
            clause_views(clauses@) == picked(fields@.take(i as int), all_fields@, pick).map_values(
                |j: int| (Occur::Should, query_at(fields@, all_fields@, lists, j)),
            ),
    {
        let ghost part = fields@.take(i + 1);
        let ghost before = clauses@;
        assert(part.drop_last() =~= fields@.take(i as int));
        assert(info_at(part, all_fields@, i as int) == info_at(fields@, all_fields@, i as int));
        if chosen[i] {
            assert(is_known(fields@, all_fields@, i as int));
            let field: u32 = fields[i].0;
            let query = tantivy_term_query(field, &all_fields[field as usize], &words[i]);
            clauses.push((Occur::Should, query));
            assert(clauses@.drop_last() =~= before);
            assert(lists[i as int] == contents(words@[i as int]@));
        }
        assert(clause_views(clauses@) =~= picked(part, all_fields@, pick).map_values(
            |j: int| (Occur::Should, query_at(fields@, all_fields@, lists, j)),
        ));
    }
    assert(fields@.take(fields@.len() as int) =~= fields@);
    clauses
}

/// The clauses that search for the words in every searchable field.
pub fn into_tantivy_simple(
    fields: &Vec<(u32, FieldEntry)>,
    all_fields: &Vec<FieldInfo>,
    words: &Vec<Vec<String>>,
) -> (r: Vec<(Occur, Query)>)
    requires
        all_known(fields@, all_fields@),
        words@.len() == fields@.len(),
        forall|i: int|
            0 <= i < fields@.len() && (#[trigger] info_at(fields@, all_fields@, i)).searchable
                ==> words@[i]@.len() > 0,
    ensures
        clause_views(r@) == any_of(fields@, all_fields@, word_lists(words@), is_searchable()),
{
    let chosen = searchable_fields(fields, all_fields);
    search_any(fields, all_fields, words, &chosen, Ghost(is_searchable()))
}

/// The clauses that search for the words in every field that names the site.
pub fn into_tantivy_site(
    fields: &Vec<(u32, FieldEntry)>,
    all_fields: &Vec<FieldInfo>,
    words: &Vec<Vec<String>>,
) -> (r: Vec<(Occur, Query)>)
    requires
        all_known(fields@, all_fields@),
        words@.len() == fields@.len(),
        forall|i: int|
            0 <= i < fields@.len() && names_site()(#[trigger] info_at(fields@, all_fields@, i))
                ==> words@[i]@.len() > 0,
    ensures
        clause_views(r@) == any_of(fields@, all_fields@, word_lists(words@), names_site()),
{
    let chosen = site_fields(fields, all_fields);
    search_any(fields, all_fields, words, &chosen, Ghost(names_site()))
}

/// The query for the words of the first field that is `field`.
fn query_in(
    field: Field,
    fields: &Vec<(u32, FieldEntry)>,
    all_fields: &Vec<FieldInfo>,
    words: &Vec<Vec<String>>,
) -> (r: Query)
    requires
        can_find(fields@, all_fields@, field),
        words@.len() == fields@.len(),
        words@[position(fields@, all_fields@, field).unwrap()]@.len() > 0,
    ensures
        r@ == query_in_first(fields@, all_fields@, word_lists(words@), field),
{
    let at: usize = find_field(fields, all_fields, field);
    proof {
        lemma_position(fields@, all_fields@, field);
        assert(is_known(fields@, all_fields@, at as int));
    }
    let number: u32 = fields[at].0;
    tantivy_term_query(number, &all_fields[number as usize], &words[at])
}

/// A clause list of one.
fn only(occur: Occur, query: Query) -> (r: Vec<(Occur, Query)>)
    ensures
        clause_views(r@) == seq![(occur, query@)],
{
    let mut clauses: Vec<(Occur, Query)> = Vec::new();
    clauses.push((occur, query));
    proof {
        lemma_clause_views(clauses@);
        assert(clause_views(clauses@) =~= seq![(occur, query@)]);
    }
    clauses
}

/// The clauses that search for a word everywhere.
pub fn simple_into_tantivy(
    fields: &Vec<(u32, FieldEntry)>,
    all_fields: &Vec<FieldInfo>,
    words: &Vec<Vec<String>>,
) -> (r: Vec<(Occur, Query)>)
    requires
        all_known(fields@, all_fields@),
        can_find(fields@, all_fields@, Field::BacklinkText),
        words@.len() == fields@.len(),
        forall|i: int|
            0 <= i < fields@.len() && (#[trigger] info_at(fields@, all_fields@, i)).searchable
                ==> words@[i]@.len() > 0,
        words@[position(fields@, all_fields@, Field::BacklinkText).unwrap()]@.len() > 0,
    ensures
        clause_views(r@) == seq![
            (
                Occur::Must,
                QueryView::Boolean(
                    any_of(fields@, all_fields@, word_lists(words@), is_searchable()),
                ),
            ),
            (
                Occur::Should,
                query_in_first(fields@, all_fields@, word_lists(words@), Field::BacklinkText),
            ),
        ],
{
    let anywhere = Query::Boolean(into_tantivy_simple(fields, all_fields, words));
    let backlink = query_in(Field::BacklinkText, fields, all_fields, words);
    let mut clauses: Vec<(Occur, Query)> = Vec::new();
    clauses.push((Occur::Must, anywhere));
    clauses.push((Occur::Should, backlink));
    proof {
        lemma_clause_views(clauses@);
        assert(clause_views(clauses@) =~= seq![
            (Occur::Must, anywhere@),
            (Occur::Should, backlink@),
        ]);
    }
    clauses
}

impl Term {
    /// The text that the term searches for.
    pub fn searched_text(&self) -> (r: String)
        ensures
            r@ == searched_text(self@),
        decreases self,
    {
        match self {
            Term::Simple(text) => text.clone(),
            Term::Not(subterm) => subterm.searched_text(),
            Term::Site(text) => text.clone(),
            Term::Title(text) => text.clone(),
            Term::Body(text) => text.clone(),
            Term::Url(text) => text.clone(),
            Term::PossibleBang(text) => {
                let mut term = String::new();
                term.push(BANG_PREFIX);
                term.append(text.as_str());
                assert(term@ =~= seq![BANG_PREFIX] + text@);
                term
            },
        }
    }

    /// Tells whether the fields that the term needs are there and known.
    pub fn has_its_fields(
        &self,
        fields: &Vec<(u32, FieldEntry)>,
        all_fields: &Vec<FieldInfo>,
    ) -> (r: bool)
        ensures
            r == can_plan(self@, fields@, all_fields@),
        decreases self,
    {
        match self {
            Term::Simple(_) | Term::PossibleBang(_) => are_all_known(fields, all_fields)
                && can_find_field(fields, all_fields, Field::BacklinkText),
            Term::Not(subterm) => subterm.has_its_fields(fields, all_fields),
            Term::Site(_) => are_all_known(fields, all_fields),
            Term::Title(_) => can_find_field(fields, all_fields, Field::Title),
            Term::Body(_) => can_find_field(fields, all_fields, Field::AllBody),
            Term::Url(_) => can_find_field(fields, all_fields, Field::Url),
        }
    }

    /// The clauses for the term, where the words of the fields are given.
    pub fn query_from_words(
        &self,
        fields: &Vec<(u32, FieldEntry)>,
        all_fields: &Vec<FieldInfo>,
        words: &Vec<Vec<String>>,
    ) -> (r: Vec<(Occur, Query)>)
        requires
            can_plan(self@, fields@, all_fields@),
            has_words(self@, fields@, all_fields@, word_lists(words@)),
        ensures
            clause_views(r@) == plan(self@, fields@, all_fields@, word_lists(words@)),
        decreases self,
    {
        proof {
            lemma_position(fields@, all_fields@, Field::BacklinkText);
            lemma_position(fields@, all_fields@, Field::Title);
            lemma_position(fields@, all_fields@, Field::AllBody);
            lemma_position(fields@, all_fields@, Field::Url);
            assert forall|i: int| 0 <= i < fields@.len() && searches(
                self@,
                fields@,
                all_fields@,
                i,
            ) implies (#[trigger] words@[i])@.len() > 0 by {
                assert(word_lists(words@)[i].len() > 0);
            }
        }
        match self {
            Term::Simple(_) => simple_into_tantivy(fields, all_fields, words),
            Term::Not(subterm) => {
                assert forall|i: int|
                    0 <= i < fields@.len() && #[trigger] searches(
                        (**subterm)@,
                        fields@,
                        all_fields@,
                        i,
                    ) implies word_lists(words@)[i].len() > 0 by {
                    assert(searches(self@, fields@, all_fields@, i));
                }
                let clauses = subterm.query_from_words(fields, all_fields, words);
                let query = Query::Boolean(clauses);
                only(Occur::MustNot, query)
            },
            Term::Site(_) => {
                let query = Query::Boolean(into_tantivy_site(fields, all_fields, words));
                only(Occur::Must, query)
            },
            Term::Title(_) => only(
                Occur::Must,
                query_in(Field::Title, fields, all_fields, words),
            ),
            Term::Body(_) => only(
                Occur::Must,
                query_in(Field::AllBody, fields, all_fields, words),
            ),
            Term::Url(_) => only(Occur::Must, query_in(Field::Url, fields, all_fields, words)),
            Term::PossibleBang(_) => simple_into_tantivy(fields, all_fields, words),
        }
    }

    /// Which fields the term is searched for in.
    pub fn searched_fields(
        &self,
        fields: &Vec<(u32, FieldEntry)>,
        all_fields: &Vec<FieldInfo>,
    ) -> (r: Vec<bool>)
        requires
            can_plan(self@, fields@, all_fields@),
        ensures
            r@.len() == fields@.len(),
            forall|i: int|
                0 <= i < fields@.len() ==> #[trigger] r@[i] == searches(
                    self@,
                    fields@,
                    all_fields@,
                    i,
                ),
        decreases self,
    {
        match self {
            Term::Simple(_) | Term::PossibleBang(_) => {
                let backlink: usize = find_field(fields, all_fields, Field::BacklinkText);
                let mut searched = searchable_fields(fields, all_fields);
                proof {
                    lemma_position(fields@, all_fields@, Field::BacklinkText);
                }
                searched.set(backlink, true);
                searched
            },
            Term::Not(subterm) => subterm.searched_fields(fields, all_fields),
            Term::Site(_) => site_fields(fields, all_fields),
            Term::Title(_) => one_field(fields, find_field(fields, all_fields, Field::Title)),
            Term::Body(_) => one_field(fields, find_field(fields, all_fields, Field::AllBody)),
            Term::Url(_) => one_field(fields, find_field(fields, all_fields, Field::Url)),
        }
    }

    /// The clauses for the term: its text is taken apart by the tokenizer of each field
    /// that it is searched for in. There is nothing to search for, and `None`, where one of
    /// them takes it apart into nothing.
    pub fn as_tantivy_query(
        &self,
        fields: &Vec<(u32, FieldEntry)>,
        all_fields: &Vec<FieldInfo>,
        tokenizer_manager: &TokenizerManager,
    ) -> (r: Option<Vec<(Occur, Query)>>)
        requires
            can_plan(self@, fields@, all_fields@),
        ensures
            match r {
                Some(clauses) => exists|words: Seq<Seq<Seq<char>>>| #[trigger]
                    may_search_by(*tokenizer_manager, self@, fields@, all_fields@, words)
                        && clause_views(clauses@) == plan(self@, fields@, all_fields@, words),
                None => exists|i: int|
                    0 <= i < fields@.len() && #[trigger] searches(self@, fields@, all_fields@, i)
                        && may_give(*tokenizer_manager, fields@[i].1, searched_text(self@), seq![]),
            },
    {
        let text = self.searched_text();
        let searched = self.searched_fields(fields, all_fields);
        let mut words: Vec<Vec<String>> = Vec::new();
        for i in 0..fields.len()
            invariant
                text@ == searched_text(self@),
                searched@.len() == fields@.len(),
                forall|j: int|
                    0 <= j < fields@.len() ==> #[trigger] searched@[j] == searches(
                        self@,
                        fields@,
                        all_fields@,
                        j,
                    ),
                words@.len() == i,
                forall|j: int|
                    0 <= j < i && searched@[j] ==> {
                        let found = contents((#[trigger] words@[j])@);
                        found.len() > 0 && may_give(
                            *tokenizer_manager,
                            fields@[j].1,
                            searched_text(self@),
                            found,
                        )
                    },
        {
            if searched[i] {
                let found = field_words(text.as_str(), &fields[i].1, tokenizer_manager);
                if found.len() == 0 {
                    assert(contents(found@) =~= seq![]);
                    assert(searched@[i as int]);
                    return None;
                }
                words.push(found);
            } else {
                words.push(Vec::new());
            }
        }
        proof {
            let lists = word_lists(words@);
            assert forall|i: int|
                0 <= i < fields@.len() && #[trigger] searches(
                    self@,
                    fields@,
                    all_fields@,
                    i,
                ) implies lists[i].len() > 0 && may_give(
                *tokenizer_manager,
                fields@[i].1,
                searched_text(self@),
                lists[i],
            ) by {
                assert(searched@[i]);
                assert(lists[i] == contents(words@[i]@));
            }
            assert(may_search_by(*tokenizer_manager, self@, fields@, all_fields@, lists));
        }
        Some(self.query_from_words(fields, all_fields, &words))
    }
}

/// A possible bang is searched for like the word that was written, with the bang's
/// character in front of it.
pub proof fn law_possible_bang_is_searched_as_a_word(
    tokenizers: TokenizerManager,
    bang: Seq<char>,
    fields: Seq<(u32, FieldEntry)>,
    all: Seq<FieldInfo>,
    words: Seq<Seq<Seq<char>>>,
)
    ensures
        ({
            let possible = TermView::PossibleBang(bang);
            let simple = TermView::Simple(seq![BANG_PREFIX] + bang);
            &&& searched_text(possible) == searched_text(simple)
            &&& can_plan(possible, fields, all) == can_plan(simple, fields, all)
            &&& may_search_by(tokenizers, possible, fields, all, words) == may_search_by(
                tokenizers,
                simple,
                fields,
                all,
                words,
            )
            &&& plan(possible, fields, all, words) == plan(simple, fields, all, words)
        }),
{
    let possible = TermView::PossibleBang(bang);
    let simple = TermView::Simple(seq![BANG_PREFIX] + bang);
    assert forall|i: int| #[trigger]
        searches(possible, fields, all, i) == searches(simple, fields, all, i) by {}
    if may_search_by(tokenizers, possible, fields, all, words) {
        assert forall|i: int| 0 <= i < fields.len() && #[trigger] searches(
            simple,
            fields,
            all,
            i,
        ) implies words[i].len() > 0 && may_give(
            tokenizers,
            fields[i].1,
            searched_text(simple),
            words[i],
        ) by {
            assert(searches(possible, fields, all, i));
        }
    }
    if may_search_by(tokenizers, simple, fields, all, words) {
        assert forall|i: int| 0 <= i < fields.len() && #[trigger] searches(
            possible,
            fields,
            all,
            i,
        ) implies words[i].len() > 0 && may_give(
            tokenizers,
            fields[i].1,
            searched_text(possible),
            words[i],
        ) by {
            assert(searches(simple, fields, all, i));
        }
    }
}

/// A negated term asks for the same fields, the same text and the same words as the term
/// itself, and its only clause forbids what the term itself asks for.
pub proof fn law_negation_forbids_what_the_term_asks_for(
    tokenizers: TokenizerManager,
    t: TermView,
    fields: Seq<(u32, FieldEntry)>,
    all: Seq<FieldInfo>,
    words: Seq<Seq<Seq<char>>>,
)
    ensures
        ({
            let not = TermView::Not(Box::new(t));
            &&& searched_text(not) == searched_text(t)
            &&& can_plan(not, fields, all) == can_plan(t, fields, all)
            &&& forall|i: int| #[trigger]
                searches(not, fields, all, i) == searches(t, fields, all, i)
            &&& may_search_by(tokenizers, not, fields, all, words) == may_search_by(
                tokenizers,
                t,
                fields,
                all,
                words,
            )
            &&& plan(not, fields, all, words) == seq![
                (Occur::MustNot, QueryView::Boolean(plan(t, fields, all, words))),
            ]
        }),
{
    let not = TermView::Not(Box::new(t));
    assert forall|i: int| #[trigger]
        searches(not, fields, all, i) == searches(t, fields, all, i) by {}
    if may_search_by(tokenizers, not, fields, all, words) {
        assert forall|i: int| 0 <= i < fields.len() && #[trigger] searches(
            t,
            fields,
            all,
            i,
        ) implies words[i].len() > 0 && may_give(
            tokenizers,
            fields[i].1,
            searched_text(t),
            words[i],
        ) by {
            assert(searches(not, fields, all, i));
        }
    }
}

/// A word of a query that is neither negated nor behind a keyword is searched for as it
/// is written.
pub proof fn law_plain_word_is_searched_as_written(word: Seq<char>)
    requires
        term_of(word) is Simple || term_of(word) is PossibleBang,
    ensures
        searched_text(term_of(word)) == word,
{
    law_written_undoes_parsing(word);
}

/// What a term asks for depends on the words of the fields that it is searched for in,
/// and on no others.
pub proof fn law_only_searched_fields_matter(
    t: TermView,
    fields: Seq<(u32, FieldEntry)>,
    all: Seq<FieldInfo>,
    words1: Seq<Seq<Seq<char>>>,
    words2: Seq<Seq<Seq<char>>>,
)
    requires
        can_plan(t, fields, all),
        forall|i: int|
            0 <= i < fields.len() && #[trigger] searches(t, fields, all, i) ==> words1[i]
                == words2[i],
    ensures
        plan(t, fields, all, words1) == plan(t, fields, all, words2),
    decreases t,
{
    lemma_position(fields, all, Field::BacklinkText);
    lemma_position(fields, all, Field::Title);
    lemma_position(fields, all, Field::AllBody);
    lemma_position(fields, all, Field::Url);
    match t {
        TermView::Simple(_) | TermView::PossibleBang(_) => {
            lemma_any_of_depends_on_picked(t, fields, all, words1, words2, is_searchable());
            let at = position(fields, all, Field::BacklinkText).unwrap();
            assert(searches(t, fields, all, at));
        },
        TermView::Not(sub) => {
            assert forall|i: int|
                0 <= i < fields.len() && #[trigger] searches(
                    *sub,
                    fields,
                    all,
                    i,
                ) implies words1[i] == words2[i] by {
                assert(searches(t, fields, all, i));
            }
            law_only_searched_fields_matter(*sub, fields, all, words1, words2);
        },
        TermView::Site(_) => {
            lemma_any_of_depends_on_picked(t, fields, all, words1, words2, names_site());
        },
        TermView::Title(_) => {
            assert(searches(t, fields, all, position(fields, all, Field::Title).unwrap()));
        },
        TermView::Body(_) => {
            assert(searches(t, fields, all, position(fields, all, Field::AllBody).unwrap()));
        },
        TermView::Url(_) => {
            assert(searches(t, fields, all, position(fields, all, Field::Url).unwrap()));
        },
    }
}

proof fn lemma_any_of_depends_on_picked(
    t: TermView,
    fields: Seq<(u32, FieldEntry)>,
    all: Seq<FieldInfo>,
    words1: Seq<Seq<Seq<char>>>,
    words2: Seq<Seq<Seq<char>>>,
    pick: spec_fn(FieldInfo) -> bool,
)
    requires
        forall|i: int|
            0 <= i < fields.len() && #[trigger] searches(t, fields, all, i) ==> words1[i]
                == words2[i],
        forall|i: int|
            pick(#[trigger] info_at(fields, all, i)) ==> searches(t, fields, all, i),
    ensures
        any_of(fields, all, words1, pick) == any_of(fields, all, words2, pick),
{
    lemma_picked(fields, all, pick);
    let at = picked(fields, all, pick);
    let a = any_of(fields, all, words1, pick);
    let b = any_of(fields, all, words2, pick);
    assert forall|k: int| 0 <= k < at.len() implies a[k] == b[k] by {
        let i = at[k];
        assert(pick(info_at(fields, all, i)));
        assert(searches(t, fields, all, i));
    }
    assert(a =~= b);
}

/// Where none of the fields that a term is searched for in has a tokenizer, there is
/// always something to search for: the term's whole text, in each of them.
pub proof fn law_untokenized_fields_are_searched_for_the_whole_text(
    tokenizers: TokenizerManager,
    t: TermView,
    fields: Seq<(u32, FieldEntry)>,
    all: Seq<FieldInfo>,
    words: Seq<Seq<Seq<char>>>,
)
    requires
        forall|i: int|
            0 <= i < fields.len() && #[trigger] searches(t, fields, all, i) ==> tokenizer_of(
                fields[i].1,
            ) is None,
    ensures
        forall|i: int|
            0 <= i < fields.len() && #[trigger] searches(t, fields, all, i) ==> !may_give(
                tokenizers,
                fields[i].1,
                searched_text(t),
                seq![],
            ),
        may_search_by(tokenizers, t, fields, all, words) ==> forall|i: int|
            0 <= i < fields.len() && #[trigger] searches(t, fields, all, i) ==> words[i] == seq![
                searched_text(t),
            ],
{
    let nothing: Seq<Seq<char>> = seq![];
    assert(nothing.len() != seq![searched_text(t)].len());
}

/// A query that the index can take: every phrase has two words or more, and all of them
/// are in one field.
pub open spec fn is_proper(query: QueryView) -> bool
    decreases query,
{
    match query {
        QueryView::Boolean(clauses) => forall|i: int|
            0 <= i < clauses.len() ==> is_proper(#[trigger] clauses[i].1),
        QueryView::Boost(query, _) => is_proper(*query),
        QueryView::Phrase(terms) => {
            &&& terms.len() > 1
            &&& forall|i: int| 0 <= i < terms.len() ==> (#[trigger] terms[i]).0 == terms[0].0
        },
        QueryView::Term(_, _) => true,
    }
}

/// Whatever the words are, a term asks only what the index can take.
pub proof fn law_plan_is_proper(
    t: TermView,
    fields: Seq<(u32, FieldEntry)>,
    all: Seq<FieldInfo>,
    words: Seq<Seq<Seq<char>>>,
)
    ensures
        forall|i: int|
            0 <= i < plan(t, fields, all, words).len() ==> is_proper(
                (#[trigger] plan(t, fields, all, words)[i]).1,
            ),
    decreases t,
{
    assert forall|i: int| is_proper(#[trigger] query_at(fields, all, words, i)) by {
        reveal_with_fuel(is_proper, 2);
    }
    match t {
        TermView::Not(sub) => {
            law_plan_is_proper(*sub, fields, all, words);
            assert(is_proper(QueryView::Boolean(plan(*sub, fields, all, words))));
        },
        TermView::Simple(_) | TermView::PossibleBang(_) => {
            assert(is_proper(QueryView::Boolean(any_of(fields, all, words, is_searchable()))));
        },
        TermView::Site(_) => {
            assert(is_proper(QueryView::Boolean(any_of(fields, all, words, names_site()))));
        },
        _ => {},
    }
}

/// The field at `at`, and no other.
fn one_field(fields: &Vec<(u32, FieldEntry)>, at: usize) -> (r: Vec<bool>)
    ensures
        r@.len() == fields@.len(),
        forall|i: int| 0 <= i < fields@.len() ==> #[trigger] r@[i] == (i == at),
{
    let mut searched: Vec<bool> = Vec::new();
    for i in 0..fields.len()
        invariant
            searched@.len() == i,
            forall|j: int| 0 <= j < i ==> #[trigger] searched@[j] == (j == at),
    {
        searched.push(i == at);
    }
    searched
}

/// A query is seen whole: all its clauses, in order, and all its words.
pub proof fn law_query_is_seen_whole(
    clauses: Vec<(Occur, Query)>,
    query: Query,
    boost: u32,
    terms: Vec<FieldTerm>,
    term: FieldTerm,
    option: IndexRecordOption,
)
    ensures
        Query::Boolean(clauses)@ == QueryView::Boolean(clause_views(clauses@)),
        Query::Boost(Box::new(query), boost)@ == QueryView::Boost(Box::new(query@), boost),
        Query::Phrase(terms)@ == QueryView::Phrase(field_terms(terms@)),
        Query::Term(term, option)@ == QueryView::Term((term.field, term.text@), option),
        clause_views(clauses@).len() == clauses@.len(),
        forall|i: int|
            0 <= i < clauses@.len() ==> #[trigger] clause_views(clauses@)[i] == (
                clauses@[i].0,
                clauses@[i].1@,
            ),
        field_terms(terms@).len() == terms@.len(),
        forall|i: int|
            0 <= i < terms@.len() ==> #[trigger] field_terms(terms@)[i] == (
                terms@[i].field,
                terms@[i].text@,
            ),
{
    lemma_clause_views(clauses@);
}

/// Lists of words are seen whole.
pub proof fn law_word_lists_are_seen_whole(words: Seq<Vec<String>>)
    ensures
        word_lists(words).len() == words.len(),
        forall|i: int|
            #![trigger word_lists(words)[i]]
            0 <= i < words.len() ==> {
                &&& word_lists(words)[i].len() == words[i]@.len()
                &&& forall|j: int|
                    0 <= j < words[i]@.len() ==> #[trigger] word_lists(words)[i][j]
                        == words[i]@[j]@
            },
{
}

/// A field is searched for all its words, however many there are: more than one are a
/// phrase with each of them, in order, and one is a term. It counts as much as the field
/// does, and once where the field does not say.
pub proof fn law_field_is_searched_for_all_its_words(
    field: u32,
    info: FieldInfo,
    words: Seq<Seq<char>>,
)
    requires
        words.len() > 0,
    ensures
        field_query(field, info, words) matches QueryView::Boost(query, boost) && {
            &&& info.boost == Some(boost) || info.boost is None && boost == UNIT_BOOST
            &&& words.len() == 1 ==> *query == QueryView::Term(
                (field, words[0]),
                IndexRecordOption::WithFreqsAndPositions,
            )
            &&& words.len() > 1 ==> (*query matches QueryView::Phrase(terms) && {
                &&& terms.len() == words.len()
                &&& forall|k: int|
                    0 <= k < words.len() ==> #[trigger] terms[k] == (field, words[k])
            })
        },
{
}

/// The words of a field can be read back from its query: different words are searched for
/// by different queries.
pub proof fn law_words_can_be_read_back(
    field: u32,
    info: FieldInfo,
    words1: Seq<Seq<char>>,
    words2: Seq<Seq<char>>,
)
    requires
        words1.len() > 0,
        words2.len() > 0,
        field_query(field, info, words1) == field_query(field, info, words2),
    ensures
        words1 == words2,
{
    law_field_is_searched_for_all_its_words(field, info, words1);
    law_field_is_searched_for_all_its_words(field, info, words2);
    match field_query(field, info, words1) {
        QueryView::Boost(query, _) => match *query {
            QueryView::Phrase(terms) => {
                assert forall|k: int| 0 <= k < terms.len() implies words1[k] == words2[k] by {
                    assert(terms[k] == (field, words1[k]));
                    assert(terms[k] == (field, words2[k]));
                }
                assert(words1 =~= words2);
            },
            _ => {
                assert(words1 =~= words2);
            },
        },
        _ => {},
    }
}

/// There is one clause for each field that is picked, in order: it counts if the words of
/// that field match in it.
pub proof fn law_every_picked_field_has_its_clause(
    fields: Seq<(u32, FieldEntry)>,
    all: Seq<FieldInfo>,
    words: Seq<Seq<Seq<char>>>,
    pick: spec_fn(FieldInfo) -> bool,
)
    ensures
        any_of(fields, all, words, pick).len() == picked(fields, all, pick).len(),
        forall|k: int|
            0 <= k < picked(fields, all, pick).len() ==> {
                let i = picked(fields, all, pick)[k];
                #[trigger] any_of(fields, all, words, pick)[k] == (
                    Occur::Should,
                    field_query(fields[i].0, all[fields[i].0 as int], words[i]),
                )
            },
{
}

/// The searchable fields are those that are marked so, and the fields that name the site
/// are the domain and the host.
pub proof fn law_picks(info: FieldInfo)
    ensures
        is_searchable()(info) <==> info.searchable,
        names_site()(info) <==> info.field == Field::Domain || info.field == Field::Host,
{
}

/// A term without a keyword has to match in one of the searchable fields, each of which is
/// searched for its own words, and counts more if it matches in the first field with the
/// text of links, which is searched for its own words too.
pub proof fn law_simple_term_is_searched_everywhere(
    text: Seq<char>,
    fields: Seq<(u32, FieldEntry)>,
    all: Seq<FieldInfo>,
    words: Seq<Seq<Seq<char>>>,
    at: int,
)
    requires
        position(fields, all, Field::BacklinkText) == Some(at),
    ensures
        forall|t: TermView|
            t == TermView::Simple(text) || t == TermView::PossibleBang(text) ==> {
                let clauses = #[trigger] plan(t, fields, all, words);
                &&& clauses.len() == 2
                &&& clauses[0] == (
                    Occur::Must,
                    QueryView::Boolean(any_of(fields, all, words, is_searchable())),
                )
                &&& clauses[1] == (
                    Occur::Should,
                    field_query(fields[at].0, all[fields[at].0 as int], words[at]),
                )
            },
{
}

/// A site has to match in one of the fields that name the site, each of which is searched
/// for its own words.
pub proof fn law_site_is_searched_in_domain_and_host(
    text: Seq<char>,
    fields: Seq<(u32, FieldEntry)>,
    all: Seq<FieldInfo>,
    words: Seq<Seq<Seq<char>>>,
)
    ensures
        plan(TermView::Site(text), fields, all, words).len() == 1,
        plan(TermView::Site(text), fields, all, words)[0] == (
            Occur::Must,
            QueryView::Boolean(any_of(fields, all, words, names_site())),
        ),
{
}

/// The other keywords have to match in the first field of their kind, which is searched for
/// its own words.
pub proof fn law_keyword_is_searched_in_its_field(
    text: Seq<char>,
    fields: Seq<(u32, FieldEntry)>,
    all: Seq<FieldInfo>,
    words: Seq<Seq<Seq<char>>>,
    t: TermView,
    field: Field,
    at: int,
)
    requires
        ({
            ||| t == TermView::Title(text) && field == Field::Title
            ||| t == TermView::Body(text) && field == Field::AllBody
            ||| t == TermView::Url(text) && field == Field::Url
        }),
        position(fields, all, field) == Some(at),
    ensures
        plan(t, fields, all, words).len() == 1,
        plan(t, fields, all, words)[0] == (
            Occur::Must,
            field_query(fields[at].0, all[fields[at].0 as int], words[at]),
        ),
{
}

/// A keyword is searched for its whole operand, a simple term for all of its text, a
/// possible bang for the bang's character and all of its text, and a negated term for what
/// the term itself is searched for.
pub proof fn law_whole_text_is_searched_for(s: Seq<char>, t: TermView)
    ensures
        searched_text(TermView::Simple(s)) == s,
        searched_text(TermView::Site(s)) == s,
        searched_text(TermView::Title(s)) == s,
        searched_text(TermView::Body(s)) == s,
        searched_text(TermView::Url(s)) == s,
        searched_text(TermView::PossibleBang(s)) == seq!['!'] + s,
        searched_text(TermView::Not(Box::new(t))) == searched_text(t),
{
    reveal_with_fuel(searched_text, 2);
}

/// A word of a query that has a keyword is searched for all that follows the keyword, also
/// where it is negated.
pub proof fn law_operand_of_a_word_is_searched_for(s: Seq<char>)
    requires
        s.len() > 0,
    ensures
        searched_text(term_of("site:"@ + s)) == s,
        searched_text(term_of("intitle:"@ + s)) == s,
        searched_text(term_of("inbody:"@ + s)) == s,
        searched_text(term_of("inurl:"@ + s)) == s,
        s[0] != '-' ==> searched_text(term_of(seq!['-'] + s)) == searched_text(term_of(s)),
{
    law_keyword_takes_its_whole_operand(s);
    if s[0] != '-' {
        law_minus_negates_what_follows(s);
        law_whole_text_is_searched_for(s, term_of(s));
    }
}

/// The fields that a term is searched for in: the searchable ones and the first with the
/// text of links, or those that name the site, or the first of the keyword's kind. A
/// negated term is searched for in the same fields as the term itself.
pub proof fn law_term_is_searched_for_in_its_fields(
    text: Seq<char>,
    t: TermView,
    fields: Seq<(u32, FieldEntry)>,
    all: Seq<FieldInfo>,
    i: int,
)
    ensures
        searches(TermView::Simple(text), fields, all, i) <==> all[fields[i].0 as int].searchable
            || position(fields, all, Field::BacklinkText) == Some(i),
        searches(TermView::PossibleBang(text), fields, all, i) <==> all[
        fields[i].0 as int].searchable || position(fields, all, Field::BacklinkText) == Some(i),
        searches(TermView::Site(text), fields, all, i) <==> all[fields[i].0 as int].field
            == Field::Domain || all[fields[i].0 as int].field == Field::Host,
        searches(TermView::Title(text), fields, all, i) <==> position(fields, all, Field::Title)
            == Some(i),
        searches(TermView::Body(text), fields, all, i) <==> position(fields, all, Field::AllBody)
            == Some(i),
        searches(TermView::Url(text), fields, all, i) <==> position(fields, all, Field::Url)
            == Some(i),
        searches(TermView::Not(Box::new(t)), fields, all, i) <==> searches(t, fields, all, i),
{
    reveal_with_fuel(searches, 2);
}

/// The fields that a term needs are there if and only if those that it looks through are
/// known and the one that it looks for, if it does, can be found.
pub proof fn law_term_needs_its_fields(
    text: Seq<char>,
    t: TermView,
    fields: Seq<(u32, FieldEntry)>,
    all: Seq<FieldInfo>,
)
    ensures
        can_plan(TermView::Simple(text), fields, all) <==> all_known(fields, all) && can_find(
            fields,
            all,
            Field::BacklinkText,
        ),
        can_plan(TermView::PossibleBang(text), fields, all) <==> all_known(fields, all)
            && can_find(fields, all, Field::BacklinkText),
        can_plan(TermView::Site(text), fields, all) <==> all_known(fields, all),
        can_plan(TermView::Title(text), fields, all) <==> can_find(fields, all, Field::Title),
        can_plan(TermView::Body(text), fields, all) <==> can_find(fields, all, Field::AllBody),
        can_plan(TermView::Url(text), fields, all) <==> can_find(fields, all, Field::Url),
        can_plan(TermView::Not(Box::new(t)), fields, all) <==> can_plan(t, fields, all),
{
    reveal_with_fuel(can_plan, 2);
}

/// A term is searched for by words if and only if every field that it is searched for in
/// has one at least, and these are what the field's own tokenizer can take the term's text
/// apart into.
pub proof fn law_term_is_searched_for_by_the_words_of_its_fields(
    tokenizers: TokenizerManager,
    t: TermView,
    fields: Seq<(u32, FieldEntry)>,
    all: Seq<FieldInfo>,
    words: Seq<Seq<Seq<char>>>,
)
    ensures
        has_words(t, fields, all, words) <==> {
            &&& words.len() == fields.len()
            &&& forall|i: int|
                0 <= i < fields.len() && #[trigger] searches(t, fields, all, i)
                    ==> words[i].len() > 0
        },
        may_search_by(tokenizers, t, fields, all, words) <==> {
            &&& words.len() == fields.len()
            &&& forall|i: int|
                0 <= i < fields.len() && #[trigger] searches(t, fields, all, i) ==> {
                    &&& words[i].len() > 0
                    &&& may_give(tokenizers, fields[i].1, searched_text(t), words[i])
                }
        },
{
}

/// A keyword with an operand, as it comes out of a query and goes to the index: the first
/// field of the keyword's kind has to match all the words, and no others, that the field's
/// own tokenizer, or none, can take the whole operand apart into.
pub proof fn law_keyword_restricts_the_search_to_its_field(
    tokenizers: TokenizerManager,
    keyword: Seq<char>,
    s: Seq<char>,
    field: Field,
    fields: Seq<(u32, FieldEntry)>,
    all: Seq<FieldInfo>,
    words: Seq<Seq<Seq<char>>>,
    at: int,
)
    requires
        s.len() > 0,
        ({
            ||| keyword == "intitle:"@ && field == Field::Title
            ||| keyword == "inbody:"@ && field == Field::AllBody
            ||| keyword == "inurl:"@ && field == Field::Url
        }),
        position(fields, all, field) == Some(at),
        may_search_by(tokenizers, term_of(keyword + s), fields, all, words),
    ensures
        may_give(tokenizers, fields[at].1, s, words[at]),
        words[at].len() > 0,
        plan(term_of(keyword + s), fields, all, words).len() == 1,
        plan(term_of(keyword + s), fields, all, words)[0] == (
            Occur::Must,
            field_query(fields[at].0, all[fields[at].0 as int], words[at]),
        ),
{
    law_keyword_takes_its_whole_operand(s);
    lemma_position(fields, all, field);
    let t = term_of(keyword + s);
    assert(searches(t, fields, all, at));
    law_keyword_is_searched_in_its_field(s, fields, all, words, t, field, at);
}

} // verus!
