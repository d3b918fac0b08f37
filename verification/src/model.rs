//! The mathematical model of one rewrite pass: which names a listing
//! prints, and which entries survive a removal.

use vstd::prelude::*;

use crate::encoding::decoded_name;
use crate::pattern::glob_match;

verus! {

/// One archive entry as the engine models it: its raw name bytes and its
/// substance (see `crate::archive`).
pub type EntryModel = (Seq<u8>, Seq<u8>);

/// The decoded names of `entries`, in entry order.
pub open spec fn decoded_names_of(entries: Seq<EntryModel>, label: Seq<char>) -> Seq<Seq<char>> {
    entries.map_values(|e: EntryModel| decoded_name(e.0, label))
}

/// The names a listing with `pattern` prints: the decoded names of the
/// entries whose decoded name the pattern matches, in entry order.
pub open spec fn listed_names(
    entries: Seq<EntryModel>,
    label: Seq<char>,
    pattern: Seq<char>,
) -> Seq<Seq<char>> {
    decoded_names_of(entries, label).filter(|n: Seq<char>| glob_match(pattern, n))
}

/// Whether some pattern of the removal filter set matches `name`.
pub open spec fn removal_matches(filters: Seq<Seq<char>>, name: Seq<char>) -> bool {
    exists|k: int| 0 <= k < filters.len() && glob_match(filters[k], name)
}

/// The predicate an entry must meet to survive a removal with `filters`.
pub open spec fn survives(entry: EntryModel, label: Seq<char>, filters: Seq<Seq<char>>) -> bool {
    !removal_matches(filters, decoded_name(entry.0, label))
}

/// The entries that survive a removal with `filters`, in entry order.
pub open spec fn surviving(
    entries: Seq<EntryModel>,
    label: Seq<char>,
    filters: Seq<Seq<char>>,
) -> Seq<EntryModel> {
    entries.filter(|e: EntryModel| survives(e, label, filters))
}

/// Whether some entry of `entries` carries exactly the name bytes `name`.
pub open spec fn has_name(entries: Seq<EntryModel>, name: Seq<u8>) -> bool {
    exists|k: int| 0 <= k < entries.len() && entries[k].0 == name
}

/// Whether no two entries of `entries` carry the same name bytes.
pub open spec fn distinct_names(entries: Seq<EntryModel>) -> bool {
    forall|j: int, k: int| 0 <= j < k < entries.len() ==> entries[j].0 != entries[k].0
}

/// `bytes` with `data` written over the range beginning at `at`.
pub open spec fn splice(bytes: Seq<u8>, at: int, data: Seq<u8>) -> Seq<u8> {
    bytes.take(at) + data + bytes.skip(at + data.len())
}

/// Bytes that all lie below `0x80` form valid UTF-8 on their own.
pub proof fn lemma_ascii_bytes_valid_utf8(bytes: Seq<u8>)
    requires
        forall|i: int| 0 <= i < bytes.len() ==> bytes[i] < 0x80,
    ensures
        vstd::utf8::valid_utf8(bytes),
{
    assert(bytes.subrange(0, 0) =~= Seq::<u8>::empty());
    assert(vstd::utf8::valid_utf8(Seq::<u8>::empty()));
    assert(vstd::utf8::partial_valid_utf8(bytes, 0));
    assert(forall|i: int|
        0 <= i < bytes.len() ==> #[trigger] vstd::utf8::is_leading_byte_width_1(bytes[i]));
    vstd::utf8::partial_valid_utf8_extend_ascii_block(bytes, 0, bytes.len() as int);
    assert(bytes.subrange(0, bytes.len() as int) =~= bytes);
}

/// Whether every entry of `entries` that survives a removal with
/// `filters` has a raw name that is valid UTF-8: the condition under
/// which a whole rewrite passes through the destination codec
/// byte-for-byte.  A name outside this set travels as an opaque token
/// and is stamped back in after the destination is finalized.
pub open spec fn surviving_names_utf8(
    entries: Seq<EntryModel>,
    label: Seq<char>,
    filters: Seq<Seq<char>>,
) -> bool {
    forall|i: int|
        0 <= i < entries.len() && survives(#[trigger] entries[i], label, filters)
            ==> vstd::utf8::valid_utf8(entries[i].0)
}

/// One step of `Seq::filter` along a growing prefix of `s`.
proof fn lemma_filter_take_step<A>(s: Seq<A>, pred: spec_fn(A) -> bool, i: int)
    requires
        0 <= i < s.len(),
    ensures
        s.take(i + 1).filter(pred) == if pred(s[i]) {
            s.take(i).filter(pred).push(s[i])
        } else {
            s.take(i).filter(pred)
        },
{
    reveal(Seq::filter);
    assert(s.take(i + 1).drop_last() =~= s.take(i));
    assert(s.take(i + 1).last() == s[i]);
}

/// One step of `listed_names` along a growing prefix of `entries`.
pub proof fn lemma_listed_take_step(
    entries: Seq<EntryModel>,
    label: Seq<char>,
    pattern: Seq<char>,
    i: int,
)
    requires
        0 <= i < entries.len(),
    ensures
        listed_names(entries.take(i + 1), label, pattern) == if glob_match(
            pattern,
            decoded_name(entries[i].0, label),
        ) {
            listed_names(entries.take(i), label, pattern).push(decoded_name(entries[i].0, label))
        } else {
            listed_names(entries.take(i), label, pattern)
        },
{
    let f = |e: EntryModel| decoded_name(e.0, label);
    assert(decoded_names_of(entries.take(i + 1), label) =~= decoded_names_of(
        entries.take(i),
        label,
    ).push(f(entries[i])));
    lemma_filter_take_step(
        decoded_names_of(entries.take(i + 1), label),
        |n: Seq<char>| glob_match(pattern, n),
        i,
    );
    assert(decoded_names_of(entries.take(i + 1), label).take(i) =~= decoded_names_of(
        entries.take(i),
        label,
    ));
    assert(decoded_names_of(entries.take(i + 1), label).take(i + 1) =~= decoded_names_of(
        entries.take(i + 1),
        label,
    ));
}

/// One step of `surviving` along a growing prefix of `entries`.
pub proof fn lemma_surviving_take_step(
    entries: Seq<EntryModel>,
    label: Seq<char>,
    filters: Seq<Seq<char>>,
    i: int,
)
    requires
        0 <= i < entries.len(),
    ensures
        surviving(entries.take(i + 1), label, filters) == if survives(entries[i], label, filters) {
            surviving(entries.take(i), label, filters).push(entries[i])
        } else {
            surviving(entries.take(i), label, filters)
        },
{
    lemma_filter_take_step(entries, |e: EntryModel| survives(e, label, filters), i);
}

/// An entry of the archive survives a removal exactly when no pattern of
/// the filter set matches its decoded name.
pub proof fn lemma_survival_iff(
    entries: Seq<EntryModel>,
    label: Seq<char>,
    filters: Seq<Seq<char>>,
    i: int,
)
    requires
        0 <= i < entries.len(),
    ensures
        surviving(entries, label, filters).contains(entries[i]) <==> !removal_matches(
            filters,
            decoded_name(entries[i].0, label),
        ),
{
    let pred = |e: EntryModel| survives(e, label, filters);
    let out = entries.filter(pred);
    if pred(entries[i]) {
        entries.lemma_filter_contains(pred, i);
    }
    if out.contains(entries[i]) {
        let j = choose|j: int| 0 <= j < out.len() && out[j] == entries[i];
        entries.lemma_filter_pred(pred, j);
    }
}

/// A removal whose filter set matches none of the decoded names — in
/// particular one with no filters at all — keeps every entry, in order.
pub proof fn lemma_surviving_all(entries: Seq<EntryModel>, label: Seq<char>, filters: Seq<Seq<char>>)
    requires
        forall|i: int|
            0 <= i < entries.len() ==> !removal_matches(
                filters,
                decoded_name(entries[i].0, label),
            ),
    ensures
        surviving(entries, label, filters) == entries,
    decreases entries.len(),
{
    reveal(Seq::filter);
    if entries.len() == 0 {
        assert(surviving(entries, label, filters) =~= entries);
    } else {
        let prefix = entries.drop_last();
        assert(forall|i: int|
            0 <= i < prefix.len() ==> !removal_matches(
                filters,
                decoded_name(#[trigger] prefix[i].0, label),
            ));
        lemma_surviving_all(prefix, label, filters);
        assert(survives(entries.last(), label, filters));
        assert(surviving(entries, label, filters) =~= entries);
    }
}

/// A filter set with no patterns matches nothing, so removal with it is
/// the identity on the entry list.
pub proof fn lemma_no_filters_survive_all(entries: Seq<EntryModel>, label: Seq<char>)
    ensures
        surviving(entries, label, Seq::<Seq<char>>::empty()) == entries,
{
    lemma_surviving_all(entries, label, Seq::<Seq<char>>::empty());
}

/// A name the survivors carry is a name the archive carries.
pub proof fn lemma_surviving_has_name(
    entries: Seq<EntryModel>,
    label: Seq<char>,
    filters: Seq<Seq<char>>,
    name: Seq<u8>,
)
    requires
        has_name(surviving(entries, label, filters), name),
    ensures
        has_name(entries, name),
{
    let pred = |e: EntryModel| survives(e, label, filters);
    let out = entries.filter(pred);
    let k = choose|k: int| 0 <= k < out.len() && out[k].0 == name;
    assert(out.contains(out[k]));
    entries.lemma_filter_contains_rev(pred, out[k]);
    let j = choose|j: int| 0 <= j < entries.len() && entries[j] == out[k];
    assert(entries[j].0 == name);
}

/// Distinct archive names stay distinct among the survivors.
pub proof fn lemma_surviving_distinct(
    entries: Seq<EntryModel>,
    label: Seq<char>,
    filters: Seq<Seq<char>>,
)
    requires
        distinct_names(entries),
    ensures
        distinct_names(surviving(entries, label, filters)),
    decreases entries.len(),
{
    reveal(Seq::filter);
    if entries.len() == 0 {
    } else {
        let prefix = entries.drop_last();
        let last = entries.last();
        assert(distinct_names(prefix));
        lemma_surviving_distinct(prefix, label, filters);
        let before = surviving(prefix, label, filters);
        if survives(last, label, filters) {
            assert(surviving(entries, label, filters) == before.push(last));
            assert forall|j: int, k: int|
                0 <= j < k < before.push(last).len() implies before.push(last)[j].0 != before.push(
                last,
            )[k].0 by {
                if k == before.len() {
                    if before[j].0 == last.0 {
                        assert(has_name(before, last.0));
                        lemma_surviving_has_name(prefix, label, filters, last.0);
                        let t = choose|t: int| 0 <= t < prefix.len() && prefix[t].0 == last.0;
                        assert(entries[t].0 == entries[entries.len() - 1].0);
                    }
                }
            }
        }
    }
}

/// One recorded rename: the index of a written entry and the raw name
/// bytes it must finally carry.
pub type RenameModel = (int, Seq<u8>);

/// `entries` with one rename applied: the entry at the given index keeps
/// its substance and takes the given name.
pub open spec fn rename_one(entries: Seq<EntryModel>, r: RenameModel) -> Seq<EntryModel> {
    entries.update(r.0, (r.1, entries[r.0].1))
}

/// `entries` with the renames applied in order.
pub open spec fn apply_renames(
    entries: Seq<EntryModel>,
    renames: Seq<RenameModel>,
) -> Seq<EntryModel>
    decreases renames.len(),
{
    if renames.len() == 0 {
        entries
    } else {
        apply_renames(rename_one(entries, renames[0]), renames.skip(1))
    }
}

/// Whether every rename index lies inside `entries`.
pub open spec fn renames_in_range(entries: Seq<EntryModel>, renames: Seq<RenameModel>) -> bool {
    forall|q: int| 0 <= q < renames.len() ==> 0 <= (#[trigger] renames[q]).0 < entries.len()
}

/// A rename plan fit for the written entries: indices ascend strictly and
/// stay in range, each renamed entry currently carries a valid-UTF-8
/// stand-in of the target name's exact length, and each target name is
/// not valid UTF-8 — that is why it could not be written directly.
pub open spec fn wf_plan(entries: Seq<EntryModel>, renames: Seq<RenameModel>) -> bool {
    &&& renames_in_range(entries, renames)
    &&& forall|q: int|
        0 <= q < renames.len() ==> vstd::utf8::valid_utf8(entries[(#[trigger] renames[q]).0].0)
    &&& forall|q: int|
        0 <= q < renames.len() ==> entries[(#[trigger] renames[q]).0].0.len() == renames[q].1.len()
    &&& forall|q: int|
        0 <= q < renames.len() ==> !vstd::utf8::valid_utf8((#[trigger] renames[q]).1)
    &&& forall|q1: int, q2: int|
        0 <= q1 < q2 < renames.len() ==> renames[q1].0 < renames[q2].0
}

/// Applying in-range renames preserves the number of entries.
pub proof fn lemma_apply_len(entries: Seq<EntryModel>, renames: Seq<RenameModel>)
    requires
        renames_in_range(entries, renames),
    ensures
        apply_renames(entries, renames).len() == entries.len(),
    decreases renames.len(),
{
    if renames.len() > 0 {
        let step = rename_one(entries, renames[0]);
        assert(step.len() == entries.len());
        assert forall|q: int|
            0 <= q < renames.skip(1).len() implies 0 <= (#[trigger] renames.skip(1)[q]).0
            < step.len() by {
            assert(renames.skip(1)[q] == renames[q + 1]);
        }
        lemma_apply_len(step, renames.skip(1));
    }
}

/// An index no rename touches keeps its entry.
pub proof fn lemma_apply_untouched(
    entries: Seq<EntryModel>,
    renames: Seq<RenameModel>,
    t: int,
)
    requires
        renames_in_range(entries, renames),
        forall|q: int| 0 <= q < renames.len() ==> (#[trigger] renames[q]).0 != t,
        0 <= t < entries.len(),
    ensures
        apply_renames(entries, renames)[t] == entries[t],
    decreases renames.len(),
{
    if renames.len() > 0 {
        let step = rename_one(entries, renames[0]);
        assert(step[t] == entries[t]);
        assert forall|q: int|
            0 <= q < renames.skip(1).len() implies 0 <= (#[trigger] renames.skip(1)[q]).0
            < step.len() && renames.skip(1)[q].0 != t by {
            assert(renames.skip(1)[q] == renames[q + 1]);
        }
        lemma_apply_untouched(step, renames.skip(1), t);
    }
}

/// The entry at a renamed index ends up with that rename's name and its
/// own substance.
pub proof fn lemma_apply_at(entries: Seq<EntryModel>, renames: Seq<RenameModel>, q0: int)
    requires
        renames_in_range(entries, renames),
        forall|q1: int, q2: int|
            0 <= q1 < q2 < renames.len() ==> renames[q1].0 < renames[q2].0,
        0 <= q0 < renames.len(),
    ensures
        apply_renames(entries, renames)[renames[q0].0] == (
            renames[q0].1,
            entries[renames[q0].0].1,
        ),
    decreases renames.len(),
{
    let step = rename_one(entries, renames[0]);
    assert forall|q: int|
        0 <= q < renames.skip(1).len() implies 0 <= (#[trigger] renames.skip(1)[q]).0
        < step.len() by {
        assert(renames.skip(1)[q] == renames[q + 1]);
    }
    assert forall|q1: int, q2: int|
        0 <= q1 < q2 < renames.skip(1).len() implies renames.skip(1)[q1].0 < renames.skip(
        1,
    )[q2].0 by {
        assert(renames.skip(1)[q1] == renames[q1 + 1]);
        assert(renames.skip(1)[q2] == renames[q2 + 1]);
    }
    if q0 == 0 {
        assert forall|q: int|
            0 <= q < renames.skip(1).len() implies (#[trigger] renames.skip(1)[q]).0
            != renames[0].0 by {
            assert(renames.skip(1)[q] == renames[q + 1]);
        }
        lemma_apply_untouched(step, renames.skip(1), renames[0].0);
        assert(step[renames[0].0] == (renames[0].1, entries[renames[0].0].1));
    } else {
        lemma_apply_at(step, renames.skip(1), q0 - 1);
        assert(renames.skip(1)[q0 - 1] == renames[q0]);
        assert(step[renames[q0].0].1 == entries[renames[q0].0].1);
    }
}

/// A rename plan ignores an entry appended at the end.
pub proof fn lemma_apply_push(
    entries: Seq<EntryModel>,
    renames: Seq<RenameModel>,
    entry: EntryModel,
)
    requires
        renames_in_range(entries, renames),
    ensures
        apply_renames(entries.push(entry), renames) == apply_renames(entries, renames).push(entry),
    decreases renames.len(),
{
    if renames.len() > 0 {
        let step = rename_one(entries, renames[0]);
        assert(rename_one(entries.push(entry), renames[0]) =~= step.push(entry));
        assert forall|q: int|
            0 <= q < renames.skip(1).len() implies 0 <= (#[trigger] renames.skip(1)[q]).0
            < step.len() by {
            assert(renames.skip(1)[q] == renames[q + 1]);
        }
        lemma_apply_push(step, renames.skip(1), entry);
    }
}

/// Appending a rename applies it after the others.
pub proof fn lemma_apply_snoc(
    entries: Seq<EntryModel>,
    renames: Seq<RenameModel>,
    r: RenameModel,
)
    requires
        renames_in_range(entries, renames),
    ensures
        apply_renames(entries, renames.push(r)) == rename_one(apply_renames(entries, renames), r),
    decreases renames.len(),
{
    if renames.len() == 0 {
        assert(renames.push(r)[0] == r);
        assert(renames.push(r).skip(1) =~= Seq::<RenameModel>::empty());
        assert(apply_renames(entries, renames.push(r)) == apply_renames(
            rename_one(entries, r),
            Seq::<RenameModel>::empty(),
        ));
    } else {
        let step = rename_one(entries, renames[0]);
        assert(renames.push(r)[0] == renames[0]);
        assert(renames.push(r).skip(1) =~= renames.skip(1).push(r));
        assert forall|q: int|
            0 <= q < renames.skip(1).len() implies 0 <= (#[trigger] renames.skip(1)[q]).0
            < step.len() by {
            assert(renames.skip(1)[q] == renames[q + 1]);
        }
        lemma_apply_snoc(step, renames.skip(1), r);
        assert(apply_renames(entries, renames.push(r)) == apply_renames(
            step,
            renames.skip(1).push(r),
        ));
        assert(apply_renames(entries, renames) == apply_renames(step, renames.skip(1)));
    }
}

/// While a fit plan is being applied in order, the target name of the
/// rename at hand differs from every other current name: names already
/// restored and names never renamed are distinct final names, and
/// stand-ins still in place are valid UTF-8 while every target name is
/// not.
pub proof fn lemma_patch_step_freshness(
    entries: Seq<EntryModel>,
    renames: Seq<RenameModel>,
    j: int,
)
    requires
        wf_plan(entries, renames),
        0 <= j < renames.len(),
        distinct_names(apply_renames(entries, renames)),
    ensures
        forall|t: int|
            0 <= t < apply_renames(entries, renames.take(j)).len() && t != renames[j].0 ==> (
            #[trigger] apply_renames(entries, renames.take(j))[t]).0 != renames[j].1,
{
    let prefix = renames.take(j);
    assert(renames_in_range(entries, prefix)) by {
        assert(forall|q: int| 0 <= q < prefix.len() ==> prefix[q] == renames[q]);
    }
    assert(forall|q1: int, q2: int|
        0 <= q1 < q2 < prefix.len() ==> prefix[q1].0 < prefix[q2].0);
    let mid = apply_renames(entries, prefix);
    let full = apply_renames(entries, renames);
    lemma_apply_len(entries, prefix);
    lemma_apply_len(entries, renames);
    let kj = renames[j].0;
    lemma_apply_at(entries, renames, j);
    assert(full[kj].0 == renames[j].1);
    assert forall|t: int| 0 <= t < mid.len() && t != kj implies (#[trigger] mid[t]).0
        != renames[j].1 by {
        if exists|q: int| 0 <= q < renames.len() && (#[trigger] renames[q]).0 == t {
            let q = choose|q: int| 0 <= q < renames.len() && (#[trigger] renames[q]).0 == t;
            if q < j {
                assert(prefix[q] == renames[q]);
                lemma_apply_at(entries, prefix, q);
                lemma_apply_at(entries, renames, q);
                assert(mid[t].0 == renames[q].1);
                assert(full[t].0 == renames[q].1);
                assert(full[t].0 != full[kj].0);
            } else {
                assert(q != j);
                assert(renames[j].0 < renames[q].0);
                assert(forall|p: int|
                    0 <= p < prefix.len() ==> (#[trigger] prefix[p]).0 != t) by {
                    assert(forall|p: int| 0 <= p < prefix.len() ==> prefix[p] == renames[p]);
                    assert(forall|p: int|
                        0 <= p < j ==> (#[trigger] renames[p]).0 < renames[j].0);
                }
                lemma_apply_untouched(entries, prefix, t);
                assert(mid[t] == entries[t]);
                assert(vstd::utf8::valid_utf8(entries[t].0));
                assert(!vstd::utf8::valid_utf8(renames[j].1));
            }
        } else {
            assert(forall|p: int| 0 <= p < prefix.len() ==> (#[trigger] prefix[p]).0 != t) by {
                assert(forall|p: int| 0 <= p < prefix.len() ==> prefix[p] == renames[p]);
            }
            lemma_apply_untouched(entries, prefix, t);
            lemma_apply_untouched(entries, renames, t);
            assert(mid[t] == entries[t]);
            assert(full[t] == entries[t]);
            assert(full[t].0 != full[kj].0);
        }
    }
}

/// Listing is a function of the archive's entries, the configured label
/// and the filter alone: two listings of an unmodified archive with the
/// same filter print the same names.
pub proof fn lemma_listing_repeatable(
    entries: Seq<EntryModel>,
    label: Seq<char>,
    pattern: Seq<char>,
    first: Seq<Seq<char>>,
    second: Seq<Seq<char>>,
)
    requires
        first == listed_names(entries, label, pattern),
        second == listed_names(entries, label, pattern),
    ensures
        first == second,
{
}

} // verus!
