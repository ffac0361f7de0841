//! Taking a text apart into the tokens that an index keeps.

use crate::query::schema::{tokenizer_of, FieldEntry, FieldType};
use crate::query::words::contents;
use tantivy::tokenizer::{TextAnalyzer, TokenizerManager};
use vstd::prelude::*;

verus! {

/// The tokenizers of an index, by their names. They can be replaced at any time through a
/// shared reference, so nothing is said of which of them the manager holds.
#[verifier::external_type_specification]
#[verifier::external_body]
pub struct ExTokenizerManager(TokenizerManager);

/// A tokenizer and its filters, any of which can be the index's own.
#[verifier::external_type_specification]
#[verifier::external_body]
pub struct ExTextAnalyzer(TextAnalyzer);

/// Looking up a tokenizer under this name in this manager can turn out so. This says what
/// was asked of which manager; it does not say that there is only one answer.
pub uninterp spec fn lookup_outcome(
    tokenizers: TokenizerManager,
    tokenizer: Seq<char>,
    found: Option<TextAnalyzer>,
) -> bool;

/// This tokenizer can take the text apart into these tokens. This says what was asked of
/// which tokenizer; it does not say that there is only one answer.
pub uninterp spec fn analysis_outcome(
    analyzer: TextAnalyzer,
    text: Seq<char>,
    tokens: Seq<Seq<char>>,
) -> bool;

/// `TokenizerManager::get`: what the manager holds under the name at the moment. The
/// contract says that this is what came of looking the name up in this manager. Which
/// names the manager holds is not stated: it can change between two calls. The call panics
/// only where a thread has panicked while it held the manager's lock.
#[verifier::external_body]
fn find_tokenizer(tokenizer_manager: &TokenizerManager, tokenizer: &str) -> (r: Option<
    TextAnalyzer,
>)
    ensures
        lookup_outcome(*tokenizer_manager, tokenizer@, r),
{
    tokenizer_manager.get(tokenizer)
}

/// `TextAnalyzer::token_stream`, read to its end with `TokenStream::process`: the texts of
/// the tokens, in order. The contract says which tokenizer took which text apart. What the
/// tokens are is not stated, nor that the call returns: a tokenizer can be anyone's code.
#[verifier::external_body]
fn tokenize(analyzer: &TextAnalyzer, text: &str) -> (r: Vec<String>)
    ensures
        analysis_outcome(*analyzer, text@, contents(r@)),
{
    let mut tokens = Vec::new();
    let mut token_stream = analyzer.token_stream(text);
    token_stream.process(&mut |token| tokens.push(token.text.clone()));
    tokens
}

/// What a text can be taken apart into by the tokenizer that was found: the whole text
/// where none was.
pub open spec fn words_by(
    found: Option<TextAnalyzer>,
    text: Seq<char>,
    words: Seq<Seq<char>>,
) -> bool {
    match found {
        None => words == seq![text],
        Some(analyzer) => analysis_outcome(analyzer, text, words),
    }
}

/// What a field's text can be taken apart into: the whole text where the field has no
/// tokenizer, else what is made of it by what the manager holds under the tokenizer's name.
pub open spec fn may_give(
    tokenizers: TokenizerManager,
    entry: FieldEntry,
    text: Seq<char>,
    words: Seq<Seq<char>>,
) -> bool {
    match tokenizer_of(entry) {
        None => words == seq![text],
        Some(tokenizer) => exists|found: Option<TextAnalyzer>| #[trigger]
            lookup_outcome(tokenizers, tokenizer, found) && words_by(found, text, words),
    }
}

/// The tokenizer of a field: none where the field is not indexed text, else what the
/// manager holds under the tokenizer's name.
pub fn get_tantivy_analyzer(entry: &FieldEntry, tokenizer_manager: &TokenizerManager) -> (r: Option<
    TextAnalyzer,
>)
    ensures
        match tokenizer_of(*entry) {
            None => r is None,
            Some(tokenizer) => lookup_outcome(*tokenizer_manager, tokenizer, r),
        },
{
    match &entry.field_type {
        FieldType::Str(options) => match &options.indexing {
            Some(indexing) => find_tokenizer(tokenizer_manager, indexing.tokenizer.as_str()),
            None => None,
        },
        FieldType::Other => None,
    }
}

/// The words of a text: the tokens that the tokenizer makes of it, or, without one, the
/// text as it is.
pub fn analyzed_words(text: &str, analyzer: Option<TextAnalyzer>) -> (r: Vec<String>)
    ensures
        words_by(analyzer, text@, contents(r@)),
{
    match analyzer {
        None => {
            let mut words: Vec<String> = Vec::new();
            words.push(text.to_string());
            assert(contents(words@) =~= seq![text@]);
            words
        },
        Some(analyzer) => tokenize(&analyzer, text),
    }
}

/// The words that a text is searched by in a field.
pub fn field_words(text: &str, entry: &FieldEntry, tokenizer_manager: &TokenizerManager) -> (r: Vec<
    String,
>)
    ensures
        may_give(*tokenizer_manager, *entry, text@, contents(r@)),
{
    analyzed_words(text, get_tantivy_analyzer(entry, tokenizer_manager))
}

/// Without a tokenizer a text is one word, whole; with one it is what that tokenizer can
/// take it apart into. A field's text is taken apart by what a lookup of the field's
/// tokenizer in the manager can find, and is one word where the field has none.
pub proof fn law_text_is_taken_apart_by_its_tokenizer(
    tokenizers: TokenizerManager,
    entry: FieldEntry,
    analyzer: TextAnalyzer,
    text: Seq<char>,
    words: Seq<Seq<char>>,
)
    ensures
        words_by(None, text, words) <==> words.len() == 1 && words[0] == text,
        words_by(Some(analyzer), text, words) <==> analysis_outcome(analyzer, text, words),
        tokenizer_of(entry) is None ==> (may_give(tokenizers, entry, text, words) <==> words.len()
            == 1 && words[0] == text),
        tokenizer_of(entry) matches Some(tokenizer) ==> (may_give(tokenizers, entry, text, words)
            <==> exists|found: Option<TextAnalyzer>| #[trigger]
            lookup_outcome(tokenizers, tokenizer, found) && words_by(found, text, words)),
{
    if words.len() == 1 && words[0] == text {
        assert(words =~= seq![text]);
    }
}

} // verus!
