//! Merging the manifests of two stores.

use crate::json;
use crate::json::{JsonNode, NodeModel};
use crate::migration::sources::LegacySource;
use crate::text;
use vstd::prelude::*;

verus! {

/// The manifest of a central store, among the entries of a source.
pub open spec fn manifest_name(source: LegacySource, file_name: Seq<char>) -> bool {
    file_name == "store.json"@ && (source == LegacySource::Plugins || source
        == LegacySource::SkillsStore)
}

/// Whether an entry of a source is the manifest of a central store.
pub fn is_store_manifest(source: LegacySource, file_name: &str) -> (r: bool)
    ensures
        r == manifest_name(source, file_name@),
{
    text::same(file_name, "store.json") && (source == LegacySource::Plugins || source
        == LegacySource::SkillsStore)
}

/// The id of an entry of a manifest.
pub open spec fn entry_id(item: serde_json::Value) -> Option<Seq<char>> {
    json::text_field_of(item, "id"@)
}

/// Some entry has this id.
pub open spec fn has_id(items: Seq<serde_json::Value>, id: Seq<char>) -> bool {
    exists|k: int| 0 <= k < items.len() && entry_id(#[trigger] items[k]) == Some(id)
}

/// The entries of the target, and after them those of the source whose id none
/// before them has. An entry of the source without an id is left out.
pub open spec fn merged_items(
    target: Seq<serde_json::Value>,
    source: Seq<serde_json::Value>,
) -> Seq<serde_json::Value>
    decreases source.len(),
{
    if source.len() == 0 {
        target
    } else {
        let before = merged_items(target, source.drop_last());
        match entry_id(source.last()) {
            Some(id) if !has_id(before, id) => before.push(source.last()),
            _ => before,
        }
    }
}

fn ids_in(items: &Vec<serde_json::Value>) -> (r: Vec<String>)
    ensures
        forall|id: Seq<char>| text::texts(r@).contains(id) == has_id(items@, id),
{
    let mut out: Vec<String> = Vec::new();
    let mut i: usize = 0;
    proof {
        assert(items@.take(0) =~= Seq::<serde_json::Value>::empty());
    }
    while i < items.len()
        invariant
            i <= items.len(),
            forall|id: Seq<char>|
                #[trigger] text::texts(out@).contains(id) == has_id(items@.take(i as int), id),
        decreases items.len() - i,
    {
        let ghost before = text::texts(out@);
        let ghost now = items@.take(i as int);
        let ghost next = items@.take(i + 1);
        proof {
            assert(next =~= now.push(items@[i as int]));
        }
        match json::text_field(&items[i], "id") {
            Some(id) => {
                out.push(id);
                proof {
                    assert(text::texts(out@) =~= before.push(id@));
                    assert forall|x: Seq<char>| #[trigger]
                        text::texts(out@).contains(x) == has_id(next, x) by {
                        lemma_has_id_push(now, items@[i as int], x);
                        lemma_contains_push(before, id@, x);
                    }
                }
            },
            None => {
                proof {
                    assert forall|x: Seq<char>| #[trigger]
                        text::texts(out@).contains(x) == has_id(next, x) by {
                        lemma_has_id_push(now, items@[i as int], x);
                    }
                }
            },
        }
        i = i + 1;
    }
    proof {
        assert(items@.take(items@.len() as int) =~= items@);
    }
    out
}

proof fn lemma_has_id_push(items: Seq<serde_json::Value>, item: serde_json::Value, id: Seq<char>)
    ensures
        has_id(items.push(item), id) == (has_id(items, id) || entry_id(item) == Some(id)),
{
    let all = items.push(item);
    if has_id(items, id) {
        let k = choose|k: int| 0 <= k < items.len() && entry_id(#[trigger] items[k]) == Some(id);
        assert(all[k] == items[k]);
    }
    if entry_id(item) == Some(id) {
        assert(all[items.len() as int] == item);
    }
    if has_id(all, id) {
        let k = choose|k: int| 0 <= k < all.len() && entry_id(#[trigger] all[k]) == Some(id);
        if k < items.len() {
            assert(items[k] == all[k]);
        }
    }
}

proof fn lemma_contains_push(s: Seq<Seq<char>>, a: Seq<char>, x: Seq<char>)
    ensures
        s.push(a).contains(x) == (s.contains(x) || x == a),
{
    let all = s.push(a);
    if s.contains(x) {
        let k = choose|k: int| 0 <= k < s.len() && s[k] == x;
        assert(all[k] == x);
    }
    assert(all[s.len() as int] == a);
    if all.contains(x) {
        let k = choose|k: int| 0 <= k < all.len() && all[k] == x;
        if k < s.len() {
            assert(s[k] == x);
        }
    }
}

/// Merges the entries of two manifests by their ids: those of the target stay
/// as they are, in front; those of the source that the target lacks follow.
pub fn merge_items(target: Vec<serde_json::Value>, source: Vec<serde_json::Value>) -> (r: Vec<
    serde_json::Value,
>)
    ensures
        r@ == merged_items(target@, source@),
{
    let ghost whole = source@;
    let ghost first = target@;
    let mut ids = ids_in(&target);
    let mut out = target;
    let mut rest = source;
    let ghost mut done: int = 0;
    proof {
        assert(whole.take(0) =~= Seq::<serde_json::Value>::empty());
        assert(whole.skip(0) =~= whole);
    }
    while rest.len() > 0
        invariant
            0 <= done <= whole.len(),
            rest@ == whole.skip(done),
            out@ == merged_items(first, whole.take(done)),
            forall|id: Seq<char>| #[trigger] text::texts(ids@).contains(id) == has_id(out@, id),
        decreases rest.len(),
    {
        let ghost before = out@;
        let ghost seen = text::texts(ids@);
        let item = rest.remove(0);
        proof {
            assert(item == whole[done]);
            assert(rest@ =~= whole.skip(done + 1));
            let next = whole.take(done + 1);
            assert(next.drop_last() =~= whole.take(done));
            assert(next.last() == item);
        }
        match json::text_field(&item, "id") {
            Some(id) => {
                if !text::listed(&ids, id.as_str()) {
                    ids.push(id);
                    out.push(item);
                    proof {
                        assert(text::texts(ids@) =~= seen.push(id@));
                        assert forall|x: Seq<char>| #[trigger]
                            text::texts(ids@).contains(x) == has_id(out@, x) by {
                            lemma_has_id_push(before, item, x);
                            lemma_contains_push(seen, id@, x);
                        }
                    }
                }
            },
            None => {},
        }
        proof {
            done = done + 1;
        }
    }
    proof {
        assert(whole.take(whole.len() as int) =~= whole);
    }
    out
}

/// Why manifests could not be merged.
#[derive(Debug)]
pub enum ManifestError {
    /// The target's manifest is not JSON.
    Target(String),
    /// The source's manifest is not JSON.
    Source(String),
    /// The target's manifest has no list of entries.
    NoItems,
}

impl ManifestError {
    /// What went wrong with the manifests of these two files.
    pub fn message(&self, source_file: &str, target_file: &str) -> (r: String)
        ensures
            r@ == (match *self {
                ManifestError::Target(e) => target_file@ + "："@ + e@,
                ManifestError::Source(e) => source_file@ + "："@ + e@,
                ManifestError::NoItems => "目标清单缺少 items 数组"@,
            }),
    {
        match self {
            ManifestError::Target(e) => text::cat3(target_file, "：", e.as_str()),
            ManifestError::Source(e) => text::cat3(source_file, "：", e.as_str()),
            ManifestError::NoItems => text::owned("目标清单缺少 items 数组"),
        }
    }
}

/// The entries of a manifest; none where it lists none.
pub open spec fn entries_of(doc: serde_json::Value) -> Seq<serde_json::Value> {
    match json::list_field_of(doc, "items"@) {
        Some(items) => items,
        None => Seq::empty(),
    }
}

/// A manifest with other entries, and all its other fields as they are.
pub open spec fn with_items(doc: serde_json::Value, items: Seq<serde_json::Value>) -> serde_json::Value {
    match json::json_node(doc) {
        NodeModel::Object(fields) => match json::field_from(fields, "items"@, 0) {
            Some(k) => json::json_closed(
                NodeModel::Object(
                    fields.update(k, ("items"@, json::json_closed(NodeModel::List(items)))),
                ),
            ),
            None => doc,
        },
        _ => doc,
    }
}

/// `r` has these entries, and every other field as `doc` has it.
pub open spec fn swapped(
    doc: serde_json::Value,
    r: serde_json::Value,
    items: Seq<serde_json::Value>,
) -> bool {
    json::list_field_of(r, "items"@) == Some(items) && forall|key: Seq<char>|
        key != "items"@ ==> json::field_of(r, key) == #[trigger] json::field_of(doc, key)
}

fn put_items(doc: serde_json::Value, items: Vec<serde_json::Value>) -> (r: serde_json::Value)
    ensures
        r == with_items(doc, items@),
        json::list_field_of(doc, "items"@) is Some ==> swapped(doc, r, items@),
{
    match json::open_json(&doc) {
        JsonNode::Object(fields) => match json::find_field(&fields, "items") {
            Some(k) => {
                let ghost before = json::fields_of(fields@);
                let mut fields = fields;
                let list = json::close_json(JsonNode::List(items));
                let field = (text::owned("items"), list);
                fields.set(k, field);
                proof {
                    assert(json::fields_of(fields@) =~= before.update(k as int, ("items"@, list)));
                }
                let ghost now = json::fields_of(fields@);
                let whole = json::close_json(JsonNode::Object(fields));
                proof {
                    json::lemma_field_by_key(before, before, "items"@, 0);
                    json::lemma_field_by_key(before, now, "items"@, 0);
                    assert forall|i: int, j: int| 0 <= i < j < now.len() implies text::text_before(
                        (#[trigger] now[i]).0,
                        (#[trigger] now[j]).0,
                    ) by {
                        assert(text::text_before(before[i].0, before[j].0));
                    }
                    assert(json::json_node(whole) == NodeModel::Object(now));
                    assert forall|key: Seq<char>| key != "items"@ implies json::field_of(whole, key)
                        == #[trigger] json::field_of(doc, key) by {
                        json::lemma_field_by_key(before, now, key, 0);
                    }
                }
                whole
            },
            None => doc,
        },
        _ => doc,
    }
}

/// Merges the text of a source's manifest into that of the target. All fields
/// of the target but its entries stay as they are. A manifest that cannot be
/// read, and a target without entries, are refused.
pub fn merge_store_manifest(source: &str, target: &str) -> (r: Result<String, ManifestError>)
    ensures
        match r {
            Ok(merged) => json::json_parsed(target@) is Ok && json::json_parsed(source@) is Ok
                && json::list_field_of(json::json_parsed(target@)->Ok_0, "items"@) is Some && {
                let doc = json::json_parsed(target@)->Ok_0;
                let items = merged_items(
                    entries_of(doc),
                    entries_of(json::json_parsed(source@)->Ok_0),
                );
                merged@ == json::json_printed(with_items(doc, items)) && swapped(
                    doc,
                    with_items(doc, items),
                    items,
                )
            },
            Err(ManifestError::Target(e)) => json::json_parsed(target@) == Err::<
                serde_json::Value,
                Seq<char>,
            >(e@),
            Err(ManifestError::Source(e)) => json::json_parsed(target@) is Ok && json::json_parsed(source@)
                == Err::<serde_json::Value, Seq<char>>(e@),
            Err(ManifestError::NoItems) => json::json_parsed(target@) is Ok && json::json_parsed(source@) is Ok
                && json::list_field_of(json::json_parsed(target@)->Ok_0, "items"@) is None,
        },
{
    let target_doc = match json::parse_json(target) {
        Ok(v) => v,
        Err(e) => {
            return Err(ManifestError::Target(e));
        },
    };
    let source_doc = match json::parse_json(source) {
        Ok(v) => v,
        Err(e) => {
            return Err(ManifestError::Source(e));
        },
    };
    let source_items = match json::list_field(&source_doc, "items") {
        Some(items) => items,
        None => Vec::new(),
    };
    proof {
        assert(source_items@ =~= entries_of(source_doc));
    }
    let target_items = match json::list_field(&target_doc, "items") {
        Some(items) => items,
        None => {
            return Err(ManifestError::NoItems);
        },
    };
    let merged = merge_items(target_items, source_items);
    let doc = put_items(target_doc, merged);
    Ok(json::print_json(&doc))
}

// ---------------------------------------------------------------------- laws

/// Merging keeps every entry of the target in its place; only entries of the
/// source follow.
pub proof fn law_merge_keeps_the_target(
    target: Seq<serde_json::Value>,
    source: Seq<serde_json::Value>,
)
    ensures
        target.len() <= merged_items(target, source).len() <= target.len() + source.len(),
        merged_items(target, source).take(target.len() as int) == target,
        forall|k: int|
            target.len() <= k < merged_items(target, source).len() ==> source.contains(
                #[trigger] merged_items(target, source)[k],
            ),
    decreases source.len(),
{
    if source.len() == 0 {
        assert(target.take(target.len() as int) =~= target);
    } else {
        let init = source.drop_last();
        law_merge_keeps_the_target(target, init);
        let before = merged_items(target, init);
        let all = merged_items(target, source);
        assert(all.take(target.len() as int) =~= before.take(target.len() as int));
        assert forall|k: int| target.len() <= k < all.len() implies source.contains(
            #[trigger] all[k],
        ) by {
            if k < before.len() {
                assert(init.contains(before[k]));
                let m = choose|m: int| 0 <= m < init.len() && init[m] == before[k];
                assert(source[m] == before[k]);
            } else {
                assert(source[source.len() - 1] == all[k]);
            }
        }
    }
}

/// No two entries have one id.
pub open spec fn distinct_entries(items: Seq<serde_json::Value>) -> bool {
    forall|i: int, j: int|
        0 <= i < j < items.len() && entry_id(#[trigger] items[i]) is Some ==> entry_id(items[i])
            != entry_id(#[trigger] items[j])
}

/// After a merge each id of either side is there; and no id is there twice
/// where none was in the target.
pub proof fn law_merge_unites_ids(target: Seq<serde_json::Value>, source: Seq<serde_json::Value>)
    ensures
        forall|id: Seq<char>| #[trigger]
            has_id(merged_items(target, source), id) == (has_id(target, id) || has_id(source, id)),
        distinct_entries(target) ==> distinct_entries(merged_items(target, source)),
    decreases source.len(),
{
    if source.len() == 0 {
        assert forall|id: Seq<char>| !has_id(source, id) by {}
    } else {
        let init = source.drop_last();
        let item = source.last();
        law_merge_unites_ids(target, init);
        let before = merged_items(target, init);
        let all = merged_items(target, source);
        assert(source =~= init.push(item));
        assert forall|id: Seq<char>| #[trigger]
            has_id(all, id) == (has_id(target, id) || has_id(source, id)) by {
            lemma_has_id_push(init, item, id);
            lemma_has_id_push(before, item, id);
        }
        if distinct_entries(target) && all.len() > before.len() {
            assert forall|i: int, j: int|
                0 <= i < j < all.len() && entry_id(#[trigger] all[i]) is Some implies entry_id(
                all[i],
            ) != entry_id(#[trigger] all[j]) by {
                if j < before.len() {
                    assert(before[i] == all[i] && before[j] == all[j]);
                } else {
                    assert(before[i] == all[i]);
                    let id = entry_id(item)->0;
                    if entry_id(all[i]) == Some(id) {
                        assert(has_id(before, id));
                    }
                }
            }
        }
    }
}

/// Merging the same source again changes nothing.
pub proof fn law_merge_is_idempotent(target: Seq<serde_json::Value>, source: Seq<serde_json::Value>)
    ensures
        merged_items(merged_items(target, source), source) == merged_items(target, source),
{
    law_merge_unites_ids(target, source);
    lemma_nothing_new(merged_items(target, source), source);
}

proof fn lemma_nothing_new(target: Seq<serde_json::Value>, source: Seq<serde_json::Value>)
    requires
        forall|id: Seq<char>| #[trigger] has_id(source, id) ==> has_id(target, id),
    ensures
        merged_items(target, source) == target,
    decreases source.len(),
{
    if source.len() > 0 {
        let init = source.drop_last();
        let item = source.last();
        assert(source =~= init.push(item));
        assert forall|id: Seq<char>| #[trigger] has_id(init, id) implies has_id(target, id) by {
            lemma_has_id_push(init, item, id);
            assert(has_id(source, id));
        }
        lemma_nothing_new(target, init);
        if let Some(id) = entry_id(item) {
            lemma_has_id_push(init, item, id);
            assert(has_id(source, id));
        }
    }
}

/// What a merge adds to the target are entries of the source that have an id
/// which the target lacks; an entry of the source without an id is never added.
pub proof fn law_merge_adds_only_what_is_new(
    target: Seq<serde_json::Value>,
    source: Seq<serde_json::Value>,
    k: int,
)
    requires
        target.len() <= k < merged_items(target, source).len(),
    ensures
        entry_id(merged_items(target, source)[k]) is Some,
        !has_id(target, entry_id(merged_items(target, source)[k])->0),
    decreases source.len(),
{
    if source.len() > 0 {
        let init = source.drop_last();
        let before = merged_items(target, init);
        law_merge_keeps_the_target(target, init);
        if k < before.len() {
            assert(merged_items(target, source)[k] == before[k]);
            law_merge_adds_only_what_is_new(target, init, k);
        } else {
            let id = entry_id(source.last())->0;
            law_merge_unites_ids(target, init);
            assert(has_id(before, id) == (has_id(target, id) || has_id(init, id)));
        }
    }
}

/// The manifests are the files `store.json` of the two central stores.
pub proof fn law_manifests_have_one_name(source: LegacySource, name: Seq<char>)
    ensures
        manifest_name(source, name) <==> name == "store.json"@ && source
            != LegacySource::SkillsActive,
{
}

/// An entry is known by its field `id`, where that is a text, and the entries of
/// a manifest are those of its field `items`, where that is a list.
pub proof fn law_manifests_are_read_by_their_fields(doc: serde_json::Value)
    ensures
        entry_id(doc) == json::text_field_of(doc, "id"@),
        json::list_field_of(doc, "items"@) matches Some(items) ==> entries_of(doc) == items,
        json::list_field_of(doc, "items"@) is None ==> entries_of(doc).len() == 0,
{
}

} // verus!
