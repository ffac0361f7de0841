//! What a query has to know of the index: its fields.

use vstd::prelude::*;

verus! {

/// The fields that a term can single out.
#[derive(Debug, Clone, Copy, PartialEq, Eq, Structural)]
pub enum Field {
    BacklinkText,
    Title,
    AllBody,
    Url,
    Domain,
    Host,
    /// Any other field.
    Other,
}

/// What is known of a field.
#[derive(Debug, Clone, Copy, PartialEq, Eq)]
pub struct FieldInfo {
    /// Which field it is.
    pub field: Field,
    /// Whether a word that is searched for everywhere is searched for in it.
    pub searchable: bool,
    /// How much a match in it counts, as the bits of a single precision number, where it
    /// does not count once.
    pub boost: Option<u32>,
}

/// How a text field is indexed.
#[derive(Debug, PartialEq, Eq)]
pub struct TextFieldIndexing {
    /// The name of the tokenizer.
    pub tokenizer: String,
}

/// The options of a text field.
#[derive(Debug, PartialEq, Eq)]
pub struct TextOptions {
    /// How the field is indexed, if it is.
    pub indexing: Option<TextFieldIndexing>,
}

/// The type of a field.
#[derive(Debug, PartialEq, Eq)]
pub enum FieldType {
    /// Text.
    Str(TextOptions),
    /// Anything else.
    Other,
}

/// The entry of a field in the index's schema.
#[derive(Debug, PartialEq, Eq)]
pub struct FieldEntry {
    pub field_type: FieldType,
}

/// The name of the tokenizer that the field's text goes through, if it goes through one.
pub open spec fn tokenizer_of(entry: FieldEntry) -> Option<Seq<char>> {
    match entry.field_type {
        FieldType::Str(TextOptions { indexing: Some(indexing) }) => Some(indexing.tokenizer@),
        _ => None,
    }
}

/// The fields of an index are listed by their numbers, which are indices into the list
/// of what is known of each: whether field `i` of `fields` is known.
pub open spec fn is_known(fields: Seq<(u32, FieldEntry)>, all: Seq<FieldInfo>, i: int) -> bool {
    fields[i].0 < all.len()
}

/// Whether every field is known.
pub open spec fn all_known(fields: Seq<(u32, FieldEntry)>, all: Seq<FieldInfo>) -> bool {
    forall|i: int| 0 <= i < fields.len() ==> #[trigger] is_known(fields, all, i)
}

/// What is known of field `i` of `fields`.
pub open spec fn info_at(
    fields: Seq<(u32, FieldEntry)>,
    all: Seq<FieldInfo>,
    i: int,
) -> FieldInfo {
    all[fields[i].0 as int]
}

/// Where `field` comes first in `fields`, if it does.
pub open spec fn position(
    fields: Seq<(u32, FieldEntry)>,
    all: Seq<FieldInfo>,
    field: Field,
) -> Option<int>
    decreases fields.len(),
{
    if fields.len() == 0 {
        None
    } else if position(fields.drop_last(), all, field) is Some {
        position(fields.drop_last(), all, field)
    } else if info_at(fields, all, fields.len() - 1).field == field {
        Some(fields.len() - 1)
    } else {
        None
    }
}

/// Whether `field` can be found: it is there, and it and the fields before it are known.
pub open spec fn can_find(
    fields: Seq<(u32, FieldEntry)>,
    all: Seq<FieldInfo>,
    field: Field,
) -> bool {
    &&& position(fields, all, field) matches Some(at)
    &&& forall|i: int| 0 <= i <= at ==> #[trigger] is_known(fields, all, i)
}

/// Where, in order, the fields are that `pick` picks.
pub open spec fn picked(
    fields: Seq<(u32, FieldEntry)>,
    all: Seq<FieldInfo>,
    pick: spec_fn(FieldInfo) -> bool,
) -> Seq<int>
    decreases fields.len(),
{
    if fields.len() == 0 {
        seq![]
    } else if pick(info_at(fields, all, fields.len() - 1)) {
        picked(fields.drop_last(), all, pick).push(fields.len() - 1)
    } else {
        picked(fields.drop_last(), all, pick)
    }
}

/// `position` is the first index at which the field is.
pub proof fn lemma_position(fields: Seq<(u32, FieldEntry)>, all: Seq<FieldInfo>, field: Field)
    ensures
        match position(fields, all, field) {
            Some(at) => {
                &&& 0 <= at < fields.len()
                &&& info_at(fields, all, at).field == field
                &&& forall|i: int|
                    0 <= i < at ==> (#[trigger] info_at(fields, all, i)).field != field
            },
            None => forall|i: int|
                0 <= i < fields.len() ==> (#[trigger] info_at(fields, all, i)).field != field,
        },
    decreases fields.len(),
{
    if fields.len() > 0 {
        let init = fields.drop_last();
        lemma_position(init, all, field);
        assert forall|i: int| 0 <= i < init.len() implies #[trigger] info_at(fields, all, i)
            == info_at(init, all, i) by {}
    }
}

/// Everything that `picked` lists is picked, and everything that is picked it lists.
pub proof fn lemma_picked(
    fields: Seq<(u32, FieldEntry)>,
    all: Seq<FieldInfo>,
    pick: spec_fn(FieldInfo) -> bool,
)
    ensures
        forall|k: int|
            0 <= k < picked(fields, all, pick).len() ==> {
                let i = #[trigger] picked(fields, all, pick)[k];
                0 <= i < fields.len() && pick(info_at(fields, all, i))
            },
        forall|i: int|
            0 <= i < fields.len() && pick(#[trigger] info_at(fields, all, i)) ==> picked(
                fields,
                all,
                pick,
            ).contains(i),
    decreases fields.len(),
{
    if fields.len() > 0 {
        let init = fields.drop_last();
        let last = fields.len() - 1;
        lemma_picked(init, all, pick);
        let before = picked(init, all, pick);
        let after = picked(fields, all, pick);
        assert forall|k: int| 0 <= k < after.len() implies {
            let i = #[trigger] after[k];
            0 <= i < fields.len() && pick(info_at(fields, all, i))
        } by {
            if k < before.len() {
                let i = before[k];
                assert(after[k] == i);
                assert(info_at(fields, all, i) == info_at(init, all, i));
            }
        }
        assert forall|i: int|
            0 <= i < fields.len() && pick(#[trigger] info_at(fields, all, i)) implies after.contains(
            i,
        ) by {
            if i < last {
                assert(info_at(fields, all, i) == info_at(init, all, i));
                let k = choose|k: int| 0 <= k < before.len() && before[k] == i;
                assert(after[k] == i);
            } else {
                assert(after[before.len() as int] == i);
            }
        }
    }
}

/// Tells whether `field` can be found.
pub fn can_find_field(
    fields: &Vec<(u32, FieldEntry)>,
    all_fields: &Vec<FieldInfo>,
    field: Field,
) -> (r: bool)
    ensures
        r == can_find(fields@, all_fields@, field),
{
    proof {
        lemma_position(fields@, all_fields@, field);
    }
    for i in 0..fields.len()
        invariant
            match position(fields@, all_fields@, field) {
                Some(at) => {
                    &&& i <= at < fields@.len()
                    &&& info_at(fields@, all_fields@, at).field == field
                    &&& forall|j: int|
                        0 <= j < at ==> (#[trigger] info_at(fields@, all_fields@, j)).field != field
                },
                None => forall|j: int|
                    0 <= j < fields@.len() ==> (#[trigger] info_at(fields@, all_fields@, j)).field
                        != field,
            },
            forall|j: int| 0 <= j < i ==> #[trigger] is_known(fields@, all_fields@, j),
    {
        let number: u32 = fields[i].0;
        if number as usize >= all_fields.len() {
            assert(!is_known(fields@, all_fields@, i as int));
            return false;
        }
        let info = &all_fields[number as usize];
        assert(*info == info_at(fields@, all_fields@, i as int));
        assert(is_known(fields@, all_fields@, i as int));
        if info.field == field {
            return true;
        }
    }
    false
}

/// Tells whether every field is known.
pub fn are_all_known(fields: &Vec<(u32, FieldEntry)>, all_fields: &Vec<FieldInfo>) -> (r: bool)
    ensures
        r == all_known(fields@, all_fields@),
{
    for i in 0..fields.len()
        invariant
            forall|j: int| 0 <= j < i ==> #[trigger] is_known(fields@, all_fields@, j),
    {
        if fields[i].0 as usize >= all_fields.len() {
            assert(!is_known(fields@, all_fields@, i as int));
            return false;
        }
        assert(is_known(fields@, all_fields@, i as int));
    }
    true
}

/// Finds where `field` comes first in `fields`.
pub fn find_field(fields: &Vec<(u32, FieldEntry)>, all_fields: &Vec<FieldInfo>, field: Field) -> (r:
    usize)
    requires
        can_find(fields@, all_fields@, field),
    ensures
        position(fields@, all_fields@, field) == Some(r as int),
{
    proof {
        lemma_position(fields@, all_fields@, field);
    }
    let len: usize = fields.len();
    let mut i: usize = 0;
    let ghost at = position(fields@, all_fields@, field).unwrap();
    loop
        invariant
            0 <= i <= at < len,
            len == fields@.len(),
            forall|j: int| 0 <= j <= at ==> #[trigger] is_known(fields@, all_fields@, j),
            info_at(fields@, all_fields@, at).field == field,
            forall|j: int|
                0 <= j < at ==> (#[trigger] info_at(fields@, all_fields@, j)).field != field,
            position(fields@, all_fields@, field) == Some(at),
        decreases at - i,
    {
        assert(is_known(fields@, all_fields@, i as int));
        let info = &all_fields[fields[i].0 as usize];
        assert(*info == info_at(fields@, all_fields@, i as int));
        if info.field == field {
            return i;
        }
        i += 1;
    }
}

/// Indexed text goes through the tokenizer that its indexing names, and nothing else goes
/// through one.
pub proof fn law_indexed_text_has_its_tokenizer(tokenizer: String)
    ensures
        tokenizer_of(
            FieldEntry {
                field_type: FieldType::Str(
                    TextOptions { indexing: Some(TextFieldIndexing { tokenizer }) },
                ),
            },
        ) == Some(tokenizer@),
        tokenizer_of(
            FieldEntry { field_type: FieldType::Str(TextOptions { indexing: None }) },
        ) is None,
        tokenizer_of(FieldEntry { field_type: FieldType::Other }) is None,
{
}

/// A field is known if and only if there is something known of its number, and that is what
/// is known of it.
pub proof fn law_fields_are_known_by_their_numbers(
    fields: Seq<(u32, FieldEntry)>,
    all: Seq<FieldInfo>,
    i: int,
)
    ensures
        is_known(fields, all, i) <==> fields[i].0 < all.len(),
        all_known(fields, all) <==> forall|j: int|
            0 <= j < fields.len() ==> (#[trigger] fields[j]).0 < all.len(),
        info_at(fields, all, i) == all[fields[i].0 as int],
{
    if forall|j: int| 0 <= j < fields.len() ==> (#[trigger] fields[j]).0 < all.len() {
        assert forall|j: int| 0 <= j < fields.len() implies #[trigger] is_known(
            fields,
            all,
            j,
        ) by {
            assert(fields[j].0 < all.len());
        }
    }
    if all_known(fields, all) {
        assert forall|j: int| 0 <= j < fields.len() implies (#[trigger] fields[j]).0
            < all.len() by {
            assert(is_known(fields, all, j));
        }
    }
}

/// A field is at a position if and only if it is there and nowhere before, and at none if
/// and only if it is nowhere; it can be found if and only if it is somewhere and it and all
/// fields before it are known.
pub proof fn law_field_is_where_it_comes_first(
    fields: Seq<(u32, FieldEntry)>,
    all: Seq<FieldInfo>,
    field: Field,
    at: int,
)
    ensures
        position(fields, all, field) == Some(at) <==> {
            &&& 0 <= at < fields.len()
            &&& all[fields[at].0 as int].field == field
            &&& forall|i: int|
                0 <= i < at ==> all[(#[trigger] fields[i]).0 as int].field != field
        },
        position(fields, all, field) is None <==> forall|i: int|
            0 <= i < fields.len() ==> all[(#[trigger] fields[i]).0 as int].field != field,
        position(fields, all, field) == Some(at) ==> {
            can_find(fields, all, field) <==> forall|i: int|
                0 <= i <= at ==> (#[trigger] fields[i]).0 < all.len()
        },
        position(fields, all, field) is None ==> !can_find(fields, all, field),
{
    lemma_position(fields, all, field);
    assert forall|i: int| all[(#[trigger] fields[i]).0 as int] == info_at(fields, all, i) by {}
    match position(fields, all, field) {
        Some(first) => {
            assert(all[fields[first].0 as int].field == field);
            assert forall|i: int| 0 <= i < first implies all[(#[trigger] fields[i]).0 as int].field
                != field by {
                assert(info_at(fields, all, i).field != field);
            }
            if first == at {
                if can_find(fields, all, field) {
                    assert forall|i: int| 0 <= i <= at implies (#[trigger] fields[i]).0
                        < all.len() by {
                        assert(is_known(fields, all, i));
                    }
                }
                if forall|i: int| 0 <= i <= at ==> (#[trigger] fields[i]).0 < all.len() {
                    assert forall|i: int| 0 <= i <= at implies #[trigger] is_known(
                        fields,
                        all,
                        i,
                    ) by {
                        assert(fields[i].0 < all.len());
                    }
                }
            }
        },
        None => {
            assert forall|i: int| 0 <= i < fields.len() implies all[(
            #[trigger] fields[i]).0 as int].field != field by {
                assert(info_at(fields, all, i).field != field);
            }
        },
    }
}

/// The fields that are picked are listed each once, in their order: every field that is
/// picked, however many there are, and no other.
pub proof fn law_every_picked_field_is_listed(
    fields: Seq<(u32, FieldEntry)>,
    all: Seq<FieldInfo>,
    pick: spec_fn(FieldInfo) -> bool,
)
    ensures
        forall|k: int|
            0 <= k < picked(fields, all, pick).len() ==> {
                let i = #[trigger] picked(fields, all, pick)[k];
                0 <= i < fields.len() && pick(all[fields[i].0 as int])
            },
        forall|i: int|
            0 <= i < fields.len() && pick(all[(#[trigger] fields[i]).0 as int]) ==> picked(
                fields,
                all,
                pick,
            ).contains(i),
        forall|k: int, l: int|
            0 <= k < l < picked(fields, all, pick).len() ==> #[trigger] picked(
                fields,
                all,
                pick,
            )[k] < #[trigger] picked(fields, all, pick)[l],
{
    lemma_picked(fields, all, pick);
    lemma_picked_in_order(fields, all, pick);
    assert forall|i: int|
        0 <= i < fields.len() && pick(all[(#[trigger] fields[i]).0 as int]) implies picked(
        fields,
        all,
        pick,
    ).contains(i) by {
        assert(pick(info_at(fields, all, i)));
    }
}

proof fn lemma_picked_in_order(
    fields: Seq<(u32, FieldEntry)>,
    all: Seq<FieldInfo>,
    pick: spec_fn(FieldInfo) -> bool,
)
    ensures
        forall|k: int, l: int|
            0 <= k < l < picked(fields, all, pick).len() ==> #[trigger] picked(
                fields,
                all,
                pick,
            )[k] < #[trigger] picked(fields, all, pick)[l],
    decreases fields.len(),
{
    if fields.len() > 0 {
        let init = fields.drop_last();
        lemma_picked_in_order(init, all, pick);
        lemma_picked(init, all, pick);
        let before = picked(init, all, pick);
        let after = picked(fields, all, pick);
        assert forall|k: int, l: int| 0 <= k < l < after.len() implies #[trigger] after[k]
            < #[trigger] after[l] by {
            assert(after[k] == before[k]);
            assert(0 <= before[k] < init.len());
            if l < before.len() {
                assert(after[l] == before[l]);
            }
        }
    }
}

} // verus!
