//! The canonical index builder: turns raw batches of application entries into
//! one deduplicated, sorted and filtered index.

use crate::models::{app_views, ApplicationInfo, ApplicationView};
use crate::stable_order::{by_text, char_views, order_by_text, positions, stable_order};
use crate::text::{
    ascii_lower, chars_of, contains, has_substring, starts_with, to_ascii_lower, trim, trimmed,
    unicode_lower, views,
};
use vstd::hash_map::StringHashMap;
use vstd::prelude::*;

verus! {

/// The entries of all batches, batch after batch.
pub open spec fn flattened(batches: Seq<Seq<ApplicationView>>) -> Seq<ApplicationView>
    decreases batches.len(),
{
    if batches.len() == 0 {
        Seq::empty()
    } else {
        flattened(batches.drop_last()) + batches.last()
    }
}

/// Whether some entry has the identity `id`.
pub open spec fn has_identity(entries: Seq<ApplicationView>, id: Seq<char>) -> bool {
    exists|j: int| 0 <= j < entries.len() && (#[trigger] entries[j]).id == id
}

/// The entries without those whose identity an earlier entry has.
pub open spec fn deduplicated(entries: Seq<ApplicationView>) -> Seq<ApplicationView>
    decreases entries.len(),
{
    if entries.len() == 0 {
        Seq::empty()
    } else {
        let before = deduplicated(entries.drop_last());
        if has_identity(entries.drop_last(), entries.last().id) {
            before
        } else {
            before.push(entries.last())
        }
    }
}

/// The keys that entries are sorted by: their names in lower case.
pub open spec fn name_keys(entries: Seq<ApplicationView>) -> Seq<Seq<char>> {
    Seq::new(entries.len(), |i: int| unicode_lower(entries[i].name))
}

/// The entries in the order of their lower-cased names, compared character by
/// character by code point; entries of equal keys keep their order.
pub open spec fn sorted_by_name(entries: Seq<ApplicationView>) -> Seq<ApplicationView> {
    let order = stable_order(entries.len(), by_text(name_keys(entries)));
    Seq::new(entries.len(), |k: int| entries[order[k]])
}

/// The path that exclusion rules are tested on: the source path where there
/// is one, else the path.
pub open spec fn effective_path(app: ApplicationView) -> Seq<char> {
    match app.source_path {
        Some(source) => source,
        None => app.path,
    }
}

/// Whether one exclusion pattern rules out a lower-cased path: the trimmed,
/// lower-cased pattern is not empty, and the path begins with it, or the
/// pattern begins with `{` and occurs in the path.
pub open spec fn pattern_excludes(path_lower: Seq<char>, pattern: Seq<char>) -> bool {
    let wanted = ascii_lower(trim(pattern));
    wanted.len() > 0 && (wanted.is_prefix_of(path_lower) || (wanted[0] == '{' && has_substring(
        path_lower,
        wanted,
    )))
}

/// Whether some exclusion pattern rules the entry out.
pub open spec fn is_excluded(app: ApplicationView, exclusions: Seq<Seq<char>>) -> bool {
    exists|k: int|
        0 <= k < exclusions.len() && pattern_excludes(
            ascii_lower(effective_path(app)),
            #[trigger] exclusions[k],
        )
}

/// The entries that no exclusion pattern rules out, in order.
pub open spec fn without_excluded(
    entries: Seq<ApplicationView>,
    exclusions: Seq<Seq<char>>,
) -> Seq<ApplicationView>
    decreases entries.len(),
{
    if entries.len() == 0 {
        Seq::empty()
    } else {
        let before = without_excluded(entries.drop_last(), exclusions);
        if is_excluded(entries.last(), exclusions) {
            before
        } else {
            before.push(entries.last())
        }
    }
}

/// The canonical index of the batches: their entries joined in batch order,
/// deduplicated by identity with the first occurrence kept, sorted by name,
/// and without the excluded entries.
pub open spec fn canonical_index(
    batches: Seq<Seq<ApplicationView>>,
    exclusions: Seq<Seq<char>>,
) -> Seq<ApplicationView> {
    without_excluded(sorted_by_name(deduplicated(flattened(batches))), exclusions)
}

/// The views of a sequence of batches.
pub open spec fn batch_views(batches: Seq<Vec<ApplicationInfo>>) -> Seq<Seq<ApplicationView>> {
    Seq::new(batches.len(), |i: int| app_views(batches[i]@))
}

/// The views of a sequence of borrowed entries.
pub open spec fn ref_views(entries: Seq<&ApplicationInfo>) -> Seq<ApplicationView> {
    Seq::new(entries.len(), |i: int| entries[i]@)
}

/// Whether the entry is ruled out by one of the exclusion patterns.
pub fn is_system_tool(app: &ApplicationInfo, exclusion_paths: &Vec<String>) -> (r: bool)
    ensures
        r == is_excluded(app@, views(exclusion_paths@)),
{
    let path_to_check = match &app.source_path {
        Some(source) => source,
        None => &app.path,
    };
    let path_lower = to_ascii_lower(&chars_of(path_to_check.as_str()));
    let ghost ev = views(exclusion_paths@);
    let mut k: usize = 0;
    while k < exclusion_paths.len()
        invariant
            k <= exclusion_paths.len(),
            ev == views(exclusion_paths@),
            path_lower@ == ascii_lower(effective_path(app@)),
            forall|j: int| 0 <= j < k ==> !pattern_excludes(path_lower@, #[trigger] ev[j]),
        decreases exclusion_paths.len() - k,
    {
        let wanted = to_ascii_lower(&trimmed(&chars_of(exclusion_paths[k].as_str())));
        assert(ev[k as int] == exclusion_paths@[k as int]@);
        if wanted.len() > 0 {
            if starts_with(&path_lower, &wanted) {
                return true;
            }
            if wanted[0] == '{' && contains(&path_lower, &wanted) {
                return true;
            }
        }
        k += 1;
    }
    false
}

/// The first occurrence of each identity among the entries of the batches.
fn first_occurrences<'a>(batches: &'a Vec<Vec<ApplicationInfo>>) -> (unique: Vec<&'a ApplicationInfo>)
    ensures
        ref_views(unique@) == deduplicated(flattened(batch_views(batches@))),
{
    let ghost bv = batch_views(batches@);
    let mut unique: Vec<&'a ApplicationInfo> = Vec::new();
    let mut seen: StringHashMap<bool> = StringHashMap::new();
    let mut b: usize = 0;
    assert(ref_views(unique@) =~= deduplicated(flattened(bv.take(0))));
    while b < batches.len()
        invariant
            b <= batches.len(),
            bv == batch_views(batches@),
            ref_views(unique@) == deduplicated(flattened(bv.take(b as int))),
            forall|id: Seq<char>| #[trigger]
                seen@.contains_key(id) <==> has_identity(flattened(bv.take(b as int)), id),
        decreases batches.len() - b,
    {
        let batch = &batches[b];
        let ghost done = flattened(bv.take(b as int));
        let ghost this = app_views(batch@);
        proof {
            assert(bv.take(b + 1).drop_last() =~= bv.take(b as int));
            assert(bv.take(b + 1).last() == this);
            assert(done + this.take(0) =~= done);
        }
        let mut e: usize = 0;
        while e < batch.len()
            invariant
                e <= batch.len(),
                this == app_views(batch@),
                ref_views(unique@) == deduplicated(done + this.take(e as int)),
                forall|id: Seq<char>| #[trigger]
                    seen@.contains_key(id) <==> has_identity(done + this.take(e as int), id),
            decreases batch.len() - e,
        {
            let entry = &batch[e];
            let ghost sofar = done + this.take(e as int);
            let ghost next = done + this.take(e + 1);
            proof {
                assert(next =~= sofar.push(entry@));
                assert(next.drop_last() =~= sofar);
                assert(next.last() == entry@);
                assert forall|id: Seq<char>| has_identity(next, id) <==> (has_identity(sofar, id)
                    || id == entry@.id) by {
                    if has_identity(next, id) {
                        let j = choose|j: int| 0 <= j < next.len() && (#[trigger] next[j]).id == id;
                        if j < sofar.len() {
                            assert(sofar[j].id == id);
                        }
                    }
                    if has_identity(sofar, id) {
                        let j = choose|j: int|
                            0 <= j < sofar.len() && (#[trigger] sofar[j]).id == id;
                        assert(next[j].id == id);
                    }
                    if id == entry@.id {
                        assert(next[sofar.len() as int].id == id);
                    }
                }
            }
            if !seen.contains_key(entry.id.as_str()) {
                let ghost earlier = ref_views(unique@);
                seen.insert(entry.id.clone(), true);
                unique.push(entry);
                assert(ref_views(unique@) =~= earlier.push(entry@));
            }
            e += 1;
        }
        proof {
            assert(this.take(batch.len() as int) =~= this);
        }
        b += 1;
    }
    proof {
        assert(bv.take(batches.len() as int) =~= bv);
    }
    unique
}

/// Builds the canonical index from raw batches, given in order of precedence:
/// where two batches hold an entry of the same identity, the earlier batch's
/// entry is kept.
pub fn build_index(batches: &Vec<Vec<ApplicationInfo>>, exclusion_paths: &Vec<String>) -> (index:
    Vec<ApplicationInfo>)
    ensures
        app_views(index@) == canonical_index(batch_views(batches@), views(exclusion_paths@)),
{
    let unique = first_occurrences(batches);
    let ghost entries = ref_views(unique@);
    let mut keys: Vec<Vec<char>> = Vec::new();
    let mut i: usize = 0;
    while i < unique.len()
        invariant
            i <= unique.len(),
            entries == ref_views(unique@),
            keys.len() == i,
            forall|j: int| 0 <= j < i ==> (#[trigger] keys@[j])@ == unicode_lower(entries[j].name),
        decreases unique.len() - i,
    {
        let lowered = unique[i].name.as_str().to_lowercase();
        keys.push(chars_of(lowered.as_str()));
        i += 1;
    }
    assert(char_views(keys@) =~= name_keys(entries));
    let order = order_by_text(&keys);
    let ghost spec_order = stable_order(entries.len(), by_text(name_keys(entries)));
    let ghost sorted = sorted_by_name(entries);
    let ghost ev = views(exclusion_paths@);
    let mut index: Vec<ApplicationInfo> = Vec::new();
    let mut k: usize = 0;
    assert(app_views(index@) =~= without_excluded(sorted.take(0), ev));
    while k < order.len()
        invariant
            k <= order.len(),
            order.len() == unique.len(),
            entries == ref_views(unique@),
            positions(order@) == spec_order,
            spec_order == stable_order(entries.len(), by_text(name_keys(entries))),
            sorted == sorted_by_name(entries),
            ev == views(exclusion_paths@),
            forall|i: int| 0 <= i < order.len() ==> (#[trigger] order@[i]) < unique.len(),
            app_views(index@) == without_excluded(sorted.take(k as int), ev),
        decreases order.len() - k,
    {
        let entry = unique[order[k]];
        proof {
            assert(positions(order@)[k as int] == order@[k as int]);
            assert(sorted[k as int] == entry@);
            assert(sorted.take(k + 1).drop_last() =~= sorted.take(k as int));
            assert(sorted.take(k + 1).last() == entry@);
        }
        if !is_system_tool(entry, exclusion_paths) {
            let ghost earlier = app_views(index@);
            let kept = entry.clone();
            index.push(kept);
            assert(app_views(index@) =~= earlier.push(entry@));
        }
        k += 1;
    }
    proof {
        assert(sorted.take(order.len() as int) =~= sorted);
    }
    index
}

} // verus!
