//! The removal operation: a rewrite pass that transplants every surviving
//! entry verbatim into a fresh destination archive.
//!
//! Filtering decisions are made against decoded names, but a surviving
//! entry is re-inserted under its untouched raw name bytes, never under
//! the (possibly lossy) decoded string.  The destination codec accepts a
//! new entry's name only as text, so a raw name that is valid UTF-8
//! passes through it byte-for-byte, while an entry whose raw name is not
//! valid UTF-8 is written under a same-length stand-in name and the true
//! bytes are stamped back over both copies of the stand-in (local header
//! and central directory) once the destination is finalized.

use vstd::prelude::*;
use vstd::string::StringSliceAdditionalSpecFns;

use crate::archive::{
    archive_of_bytes,
    entry_count,
    entry_offsets,
    entry_raw_name,
    entry_readable,
    finalize_destination,
    new_destination,
    open_archive,
    opened_from,
    plain_layout,
    renames_cleanly,
    source_entries,
    transplant_entry,
    writer_usable,
    written_entries,
};
use crate::cli::{seq_views, spec_parse_remove, GlobalOption, RemoveParseModel};
use crate::cmd::Command;
use crate::encoding::{encoding_known, utf8_name, Codec};
use crate::text::{str_eq, str_starts_with, value_after_eq};
use crate::errors::ZipedError;
use crate::model::{
    apply_renames,
    distinct_names,
    has_name,
    lemma_apply_len,
    lemma_apply_push,
    lemma_apply_snoc,
    lemma_apply_untouched,
    lemma_ascii_bytes_valid_utf8,
    lemma_patch_step_freshness,
    lemma_surviving_distinct,
    lemma_surviving_has_name,
    lemma_surviving_take_step,
    removal_matches,
    rename_one,
    renames_in_range,
    splice,
    survives,
    surviving,
    surviving_names_utf8,
    wf_plan,
    EntryModel,
    RenameModel,
};
use crate::pattern::{glob_match, Matcher};

verus! {

/// The views of a sequence of compiled matchers: the filter set they
/// were compiled from.
pub open spec fn matcher_views(ms: Seq<Matcher>) -> Seq<Seq<char>> {
    ms.map_values(|m: Matcher| m@)
}

/// The model of the recorded renames: for each, the index of the written
/// entry and the raw name bytes it must finally carry.
pub open spec fn rename_model(renames: Seq<(usize, Vec<u8>)>) -> Seq<RenameModel> {
    renames.map_values(|p: (usize, Vec<u8>)| (p.0 as int, p.1@))
}

/// Every written name also stands in `taken`.
spec fn names_registered(written: Seq<EntryModel>, taken: Seq<Vec<u8>>) -> bool {
    forall|t: int|
        #![trigger written[t]]
        0 <= t < written.len() ==> exists|k: int|
            0 <= k < taken.len() && (#[trigger] taken[k])@ == written[t].0
}

/// No stand-in position carries a name the source archive uses.
spec fn stand_ins_foreign(
    written: Seq<EntryModel>,
    rn: Seq<RenameModel>,
    entries: Seq<EntryModel>,
) -> bool {
    forall|q: int, k: int|
        #![trigger rn[q], entries[k]]
        0 <= q < rn.len() && 0 <= k < entries.len() ==> written[rn[q].0].0 != entries[k].0
}

/// Compiles each filter string once, before iteration begins.
fn compile_filters(filters: &Vec<String>) -> (ms: Vec<Matcher>)
    ensures
        matcher_views(ms@) == filters.deep_view(),
{
    let mut ms: Vec<Matcher> = Vec::new();
    let mut i: usize = 0;
    while i < filters.len()
        invariant
            i <= filters@.len(),
            ms@.len() == i,
            forall|k: int| 0 <= k < i ==> #[trigger] ms@[k]@ == filters@[k]@,
        decreases filters@.len() - i,
    {
        let m = Matcher::new(filters[i].as_str());
        ms.push(m);
        i = i + 1;
    }
    proof {
        assert(matcher_views(ms@) =~= filters.deep_view());
    }
    ms
}

/// Whether any of the compiled filters matches `name`.
fn matches_any(ms: &Vec<Matcher>, name: &str) -> (r: bool)
    ensures
        r == removal_matches(matcher_views(ms@), name@),
{
    let mut i: usize = 0;
    while i < ms.len()
        invariant
            i <= ms@.len(),
            forall|k: int| 0 <= k < i ==> !glob_match(#[trigger] ms@[k]@, name@),
        decreases ms@.len() - i,
    {
        if ms[i].matches(name) {
            proof {
                assert(matcher_views(ms@)[i as int] == ms@[i as int]@);
            }
            return true;
        }
        i = i + 1;
    }
    proof {
        assert(forall|k: int|
            0 <= k < matcher_views(ms@).len() ==> !glob_match(
                #[trigger] matcher_views(ms@)[k],
                name@,
            ));
    }
    false
}

/// Candidate bytes for one stand-in name: ASCII only (the digits of
/// `serial`, padded with 0x7f), exactly `len` bytes.
fn placeholder_bytes(len: usize, serial: usize) -> (r: Vec<u8>)
    ensures
        r@.len() == len,
        forall|t: int| 0 <= t < r@.len() ==> r@[t] < 0x80,
{
    let mut bytes: Vec<u8> = Vec::new();
    let mut k = serial;
    bytes.push(48u8 + (k % 10) as u8);
    k = k / 10;
    while k > 0
        invariant
            forall|t: int| 0 <= t < bytes@.len() ==> bytes@[t] < 0x80,
        decreases k,
    {
        bytes.push(48u8 + (k % 10) as u8);
        k = k / 10;
    }
    while bytes.len() < len
        invariant
            forall|t: int| 0 <= t < bytes@.len() ==> bytes@[t] < 0x80,
        decreases len - bytes@.len(),
    {
        bytes.push(127u8);
    }
    while bytes.len() > len
        invariant
            bytes@.len() >= len,
            forall|t: int| 0 <= t < bytes@.len() ==> bytes@[t] < 0x80,
        decreases bytes@.len(),
    {
        let _ = bytes.pop();
    }
    bytes
}

/// Whether `a` and `b` hold the same bytes.
fn bytes_eq(a: &Vec<u8>, b: &Vec<u8>) -> (r: bool)
    ensures
        r == (a@ == b@),
{
    if a.len() != b.len() {
        return false;
    }
    let n = a.len();
    let mut i: usize = 0;
    while i < n
        invariant
            i <= n,
            n == a@.len(),
            n == b@.len(),
            forall|j: int| 0 <= j < i ==> a@[j] == b@[j],
        decreases n - i,
    {
        if a[i] != b[i] {
            return false;
        }
        i = i + 1;
    }
    proof {
        assert(a@ =~= b@);
    }
    true
}

/// Whether `name` equals any of `names`.
fn contains_bytes(names: &Vec<Vec<u8>>, name: &Vec<u8>) -> (r: bool)
    ensures
        r == (exists|k: int| 0 <= k < names@.len() && names@[k]@ == name@),
{
    let mut i: usize = 0;
    while i < names.len()
        invariant
            i <= names@.len(),
            forall|k: int| 0 <= k < i ==> names@[k]@ != name@,
        decreases names@.len() - i,
    {
        if bytes_eq(&names[i], name) {
            return true;
        }
        i = i + 1;
    }
    false
}

/// A stand-in name for one entry whose raw name is not valid UTF-8: made
/// of ASCII bytes only, with exactly `len` stored bytes, and never equal
/// to any name already in `taken` — neither a raw name of the source
/// archive nor an earlier stand-in — so it cannot collide with any name
/// the destination will hold.  The chosen stand-in is appended to
/// `taken`.  Serial numbers from `start` upwards are tried; when every
/// candidate is taken, `None`, and `taken` is unchanged.
fn fresh_placeholder(len: usize, taken: &mut Vec<Vec<u8>>, start: usize) -> (r: Option<String>)
    ensures
        r matches Some(p) ==> vstd::utf8::encode_utf8(p@).len() == len,
        r matches Some(p) ==> (final(taken)@.len() == old(taken)@.len() + 1 && (forall|k: int|
            0 <= k < old(taken)@.len() ==> (#[trigger] final(taken)@[k])@ == old(taken)@[k]@)
            && final(taken)@[old(taken)@.len() as int]@ == vstd::utf8::encode_utf8(p@) && (
        forall|k: int|
            0 <= k < old(taken)@.len() ==> (#[trigger] old(taken)@[k])@ != vstd::utf8::encode_utf8(
            p@,
        ))),
        r is None ==> final(taken)@ == old(taken)@,
{
    let mut attempt: usize = 0;
    let bound = taken.len();
    while attempt <= bound
        invariant
            attempt <= bound + 1,
            taken@ == old(taken)@,
        decreases bound + 1 - attempt,
    {
        if start > usize::MAX - attempt {
            return None;
        }
        let candidate = placeholder_bytes(len, start + attempt);
        if !contains_bytes(taken, &candidate) {
            proof {
                lemma_ascii_bytes_valid_utf8(candidate@);
            }
            let name = utf8_name(candidate.as_slice()).unwrap();
            proof {
                vstd::utf8::decode_utf8_encode_utf8(candidate@);
            }
            taken.push(candidate);
            return Some(name);
        }
        if attempt == bound {
            return None;
        }
        attempt = attempt + 1;
    }
    None
}

/// Writes `data` over `buf` starting at `off`, refusing offsets that do
/// not lie fully inside `buf` — and succeeding on every offset that does.
fn write_bytes_at(buf: &mut Vec<u8>, off: u64, data: &Vec<u8>) -> (r: Result<(), ZipedError>)
    ensures
        r is Ok ==> final(buf)@ == splice(old(buf)@, off as int, data@),
        off as int + data@.len() <= old(buf)@.len() ==> r is Ok,
{
    let available = buf.len();
    if off > (usize::MAX as u64) {
        return Err(ZipedError::MalformedOutput);
    }
    let start = off as usize;
    let len = data.len();
    if len > buf.len() || start > buf.len() - len {
        return Err(ZipedError::MalformedOutput);
    }
    let buf_len = buf.len();
    let ghost total = buf@.len();
    let mut t: usize = 0;
    while t < len
        invariant
            t <= len,
            len == data@.len(),
            buf@.len() == total,
            total == buf_len,
            start + len <= total,
            forall|x: int|
                0 <= x < total && !(start <= x < start + t) ==> buf@[x] == old(buf)@[x],
            forall|x: int| start <= x < start + t ==> buf@[x] == data@[x - start],
        decreases len - t,
    {
        buf[start + t] = data[t];
        t = t + 1;
    }
    proof {
        assert(start == off as int);
        assert(buf@ =~= splice(old(buf)@, off as int, data@));
    }
    Ok(())
}

/// Stamps each recorded raw name back over its stand-in in the finalized
/// archive `bytes`, one rename at a time: the archive is reopened, the
/// entry's two header offsets are read back, and the true name bytes are
/// written over the equally long stand-in in both the local file header
/// (30 bytes in) and the central directory header (46 bytes in).  Over a
/// readable plain-layout archive — which the destination writer always
/// produces — patching cannot fail.
fn patch_raw_names(
    bytes: Vec<u8>,
    renames: &Vec<(usize, Vec<u8>)>,
    Ghost(written): Ghost<Seq<EntryModel>>,
) -> (r: Result<Vec<u8>, ZipedError>)
    requires
        archive_of_bytes(bytes@) == Some(written),
        plain_layout(bytes@),
        forall|i: int| 0 <= i < written.len() ==> entry_readable(bytes@, i),
        wf_plan(written, rename_model(renames@)),
        distinct_names(apply_renames(written, rename_model(renames@))),
    ensures
        r is Ok,
        r matches Ok(out) ==> archive_of_bytes(out@) == Some(
            apply_renames(written, rename_model(renames@)),
        ),
{
    let ghost rn = rename_model(renames@);
    let mut out = bytes;
    let total = renames.len();
    let mut j: usize = 0;
    while j < total
        invariant
            j <= total,
            total == renames@.len(),
            rn == rename_model(renames@),
            wf_plan(written, rn),
            distinct_names(apply_renames(written, rn)),
            archive_of_bytes(out@) == Some(apply_renames(written, rn.take(j as int))),
            plain_layout(out@),
            forall|i: int| 0 <= i < written.len() ==> entry_readable(out@, i),
        decreases total - j,
    {
        let ghost mid = apply_renames(written, rn.take(j as int));
        proof {
            assert(renames_in_range(written, rn.take(j as int))) by {
                assert(forall|q: int|
                    0 <= q < rn.take(j as int).len() ==> rn.take(j as int)[q] == rn[q]);
            }
            lemma_apply_len(written, rn.take(j as int));
        }
        let mut archive = match open_archive(out.clone()) {
            Ok(a) => a,
            Err(e) => { return Err(e) },
        };
        proof {
            assert(opened_from(archive) == out@);
            assert(source_entries(archive) == mid);
        }
        let count = entry_count(&archive);
        let index = renames[j].0;
        proof {
            assert(rn[j as int] == (index as int, renames@[j as int].1@));
            assert(index < count);
        }
        if index >= count {
            return Err(ZipedError::MalformedOutput);
        }
        let offsets = match entry_offsets(&mut archive, index) {
            Ok(offs) => offs,
            Err(e) => {
                proof {
                    assert(entry_readable(out@, index as int));
                    assert(false);
                }
                return Err(e)
            },
        };
        let (local_start, central_start) = offsets;
        let out_len = out.len();
        proof {
            let name = rn[j as int].1;
            // The stand-in at this index is untouched by the earlier
            // renames, whose indices are strictly smaller.
            assert(forall|q: int|
                0 <= q < rn.take(j as int).len() ==> (#[trigger] rn.take(j as int)[q]).0 != index
                    as int) by {
                assert(forall|q: int|
                    0 <= q < rn.take(j as int).len() ==> rn.take(j as int)[q] == rn[q]);
                assert(forall|q: int| 0 <= q < j ==> (#[trigger] rn[q]).0 < rn[j as int].0);
            }
            lemma_apply_untouched(written, rn.take(j as int), index as int);
            assert(mid[index as int] == written[index as int]);
            assert(mid[index as int].0.len() == name.len());
            assert(local_start as int + 30 + name.len() <= out@.len());
            assert(central_start as int + 46 + name.len() <= out@.len());
            assert(out@.len() == out_len);
        }
        if local_start > u64::MAX - 30 || central_start > u64::MAX - 46 {
            return Err(ZipedError::MalformedOutput);
        }
        let ghost before = out@;
        match write_bytes_at(&mut out, local_start + 30, &renames[j].1) {
            Ok(()) => {},
            Err(e) => { return Err(e) },
        }
        let ghost after_local = out@;
        match write_bytes_at(&mut out, central_start + 46, &renames[j].1) {
            Ok(()) => {},
            Err(e) => { return Err(e) },
        }
        proof {
            let name = rn[j as int].1;
            assert(after_local == splice(before, local_start as int + 30, name));
            assert(out@ == splice(after_local, central_start as int + 46, name));
            lemma_patch_step_freshness(written, rn, j as int);
            assert(renames_cleanly(
                before,
                mid,
                index as int,
                local_start as int,
                central_start as int,
            ));
            assert(archive_of_bytes(out@) == Some(
                mid.update(index as int, (name, mid[index as int].1)),
            ));
            assert forall|i: int| 0 <= i < written.len() implies entry_readable(out@, i) by {
                assert(entry_readable(
                    splice(
                        splice(before, local_start as int + 30, name),
                        central_start as int + 46,
                        name,
                    ),
                    i,
                ) == entry_readable(before, i));
            }
            assert(rn.take(j as int + 1) =~= rn.take(j as int).push(rn[j as int]));
            lemma_apply_snoc(written, rn.take(j as int), rn[j as int]);
            assert(apply_renames(written, rn.take(j as int + 1)) == rename_one(mid, rn[j as int]));
            assert(rename_one(mid, rn[j as int]) == mid.update(
                index as int,
                (name, mid[index as int].1),
            ));
        }
        j = j + 1;
    }
    proof {
        assert(rn.take(total as int) =~= rn);
    }
    Ok(out)
}

/// Round trip: when a removal keeps every entry — its filter set is
/// empty — the output archive's entries are identical to the source's:
/// the same raw names, the same substance, the same count, in order.
pub proof fn lemma_remove_none_round_trip(
    entries: Seq<(Seq<u8>, Seq<u8>)>,
    label: Seq<char>,
    out: Seq<u8>,
)
    requires
        archive_of_bytes(out) == Some(surviving(entries, label, Seq::<Seq<char>>::empty())),
    ensures
        archive_of_bytes(out) == Some(entries),
{
    crate::model::lemma_no_filters_survive_all(entries, label);
}

/// The `rm` command: remove the entries an ordered filter set matches.
pub struct Remove {
    /// The removal filters; an entry matched by any of them is dropped.
    pub filters: Vec<String>,
}

impl Remove {
    /// Consumes this subcommand's options from the front of `args`: each
    /// `--filter=` argument appends one removal filter, and the first
    /// other argument is left for the caller.  `None` means the
    /// subcommand's usage text was requested with `-h`.
    pub fn parse(args: &mut std::collections::VecDeque<String>) -> (r: Option<Command>)
        ensures
            spec_parse_remove(seq_views(old(args)@), Seq::<Seq<char>>::empty())
                matches RemoveParseModel::RemoveDone { filters, rest } ==> (r matches Some(c) && c
                matches Command::Remove(rm) && rm.filters.deep_view() == filters && seq_views(
                final(args)@,
            ) == rest),
            spec_parse_remove(seq_views(old(args)@), Seq::<Seq<char>>::empty()) is RemoveHelp
                ==> r is None,
    {
        let mut filters: Vec<String> = Vec::new();
        proof {
            assert(filters.deep_view() =~= Seq::<Seq<char>>::empty());
        }
        loop
            invariant
                spec_parse_remove(seq_views(old(args)@), Seq::<Seq<char>>::empty())
                    == spec_parse_remove(seq_views(args@), filters.deep_view()),
            decreases args@.len(),
        {
            let ghost before = seq_views(args@);
            let ghost fs_before = filters.deep_view();
            match args.pop_front() {
                None => {
                    proof {
                        assert(seq_views(args@) =~= before);
                    }
                    return Some(Command::Remove(Remove { filters }));
                },
                Some(arg) => {
                    proof {
                        assert(before[0] == arg@);
                        assert(seq_views(args@) =~= before.skip(1));
                    }
                    if str_eq(arg.as_str(), "-h") || str_eq(arg.as_str(), "--help") {
                        return None;
                    } else if str_starts_with(arg.as_str(), "--filter=") {
                        let value = value_after_eq(arg.as_str());
                        filters.push(value);
                        proof {
                            assert(filters.deep_view() =~= fs_before.push(
                                crate::text::after_last(arg@, '='),
                            ));
                        }
                    } else {
                        args.push_front(arg);
                        proof {
                            assert(seq_views(args@) =~= before);
                        }
                        return Some(Command::Remove(Remove { filters }));
                    }
                },
            }
        }
    }

    /// Rewrites the archive held in `data`: every entry whose decoded
    /// name no filter matches is transplanted verbatim — still
    /// compressed, under its original raw name — into a fresh archive,
    /// whose finished bytes are returned.  Entries are processed in
    /// ascending index order, and any failure aborts the whole rewrite:
    /// an error never yields output bytes.  On success the output
    /// archive holds exactly the surviving entries, in order, under
    /// their untouched raw names.  Success is owed whenever the source
    /// opens, the encoding label is known and every entry is readable —
    /// except that a rewrite which must carry a name through a stand-in
    /// can fail to find a free stand-in among the bounded set of
    /// candidates it tries; that is refused as its own error, and arises
    /// on no other input.
    pub fn run(&self, opt: &GlobalOption, data: Vec<u8>) -> (r: Result<Vec<u8>, ZipedError>)
        ensures
            archive_of_bytes(data@) is None ==> (r matches Err(e) && e is Archive),
            archive_of_bytes(data@) is Some && !encoding_known(opt.path_encoding@) ==> (r
                matches Err(e) && e matches ZipedError::UnknownEncoding(l) && l@
                == opt.path_encoding@),
            r matches Ok(out) ==> (archive_of_bytes(data@) matches Some(entries)
                && encoding_known(opt.path_encoding@) && archive_of_bytes(out@) == Some(
                surviving(entries, opt.path_encoding@, self.filters.deep_view()),
            )),
            (archive_of_bytes(data@) matches Some(entries) && encoding_known(opt.path_encoding@)
                && (forall|q: int| 0 <= q < entries.len() ==> entry_readable(data@, q))
                && surviving_names_utf8(entries, opt.path_encoding@, self.filters.deep_view()))
                ==> r is Ok,
            (archive_of_bytes(data@) matches Some(entries) && encoding_known(opt.path_encoding@)
                && (forall|q: int| 0 <= q < entries.len() ==> entry_readable(data@, q))) ==> (r
                is Ok || (r matches Err(e) && e is StandInExhausted)),
    {
        let ghost bytes = data@;
        let mut archive = match open_archive(data) {
            Ok(a) => a,
            Err(e) => { return Err(e) },
        };
        let codec = match Codec::new(opt.path_encoding.as_str()) {
            Ok(c) => c,
            Err(e) => { return Err(e) },
        };
        let matchers = compile_filters(&self.filters);
        let ghost filters = self.filters.deep_view();
        let n = entry_count(&archive);
        let ghost entries = source_entries(archive);
        // Collect every raw name first, so that stand-in names can be
        // chosen free of all of them.
        let mut taken: Vec<Vec<u8>> = Vec::new();
        let mut p: usize = 0;
        while p < n
            invariant
                p <= n,
                n == entries.len(),
                bytes == data@,
                source_entries(archive) == entries,
                opened_from(archive) == bytes,
                archive_of_bytes(bytes) == Some(entries),
                encoding_known(opt.path_encoding@),
                taken@.len() == p,
                forall|k: int| 0 <= k < p ==> (#[trigger] taken@[k])@ == entries[k].0,
            decreases n - p,
        {
            match entry_raw_name(&mut archive, p) {
                Ok(nm) => {
                    taken.push(nm);
                },
                Err(e) => { return Err(e) },
            }
            p = p + 1;
        }
        let mut dst = new_destination();
        let mut renames: Vec<(usize, Vec<u8>)> = Vec::new();
        let mut kept: usize = 0;
        let mut stamped: usize = 0;
        let mut i: usize = 0;
        proof {
            assert(rename_model(renames@) =~= Seq::<RenameModel>::empty());
        }
        while i < n
            invariant
                i <= n,
                n == entries.len(),
                kept <= i,
                stamped <= i,
                bytes == data@,
                source_entries(archive) == entries,
                opened_from(archive) == bytes,
                archive_of_bytes(bytes) == Some(entries),
                distinct_names(entries),
                encoding_known(opt.path_encoding@),
                codec@ == opt.path_encoding@,
                matcher_views(matchers@) == filters,
                filters == self.filters.deep_view(),
                writer_usable(dst),
                kept == written_entries(dst).len(),
                wf_plan(written_entries(dst), rename_model(renames@)),
                apply_renames(written_entries(dst), rename_model(renames@)) == surviving(
                    entries.take(i as int),
                    codec@,
                    filters,
                ),
                surviving_names_utf8(entries, codec@, filters) ==> renames@.len() == 0,
                taken@.len() >= n,
                forall|k: int| 0 <= k < n ==> (#[trigger] taken@[k])@ == entries[k].0,
                names_registered(written_entries(dst), taken@),
                stand_ins_foreign(written_entries(dst), rename_model(renames@), entries),
            decreases n - i,
        {
            let ghost w_before = written_entries(dst);
            let ghost rn_before = rename_model(renames@);
            let raw = match entry_raw_name(&mut archive, i) {
                Ok(b) => b,
                Err(e) => { return Err(e) },
            };
            let ghost rawv = raw@;
            let decoded = codec.decode_name(raw.as_slice());
            if matches_any(&matchers, decoded.as_str()) {
                // The entry is dropped: some filter matches its decoded name.
                proof {
                    assert(!survives(entries[i as int], codec@, filters));
                    lemma_surviving_take_step(entries, codec@, filters, i as int);
                }
            } else {
                proof {
                    assert(survives(entries[i as int], codec@, filters));
                    lemma_surviving_take_step(entries, codec@, filters, i as int);
                }
                match utf8_name(raw.as_slice()) {
                    Some(name) => {
                        // The raw name is valid UTF-8: handing it to the
                        // destination as text stores those very bytes.
                        proof {
                            vstd::utf8::decode_utf8_encode_utf8(entries[i as int].0);
                            assert(vstd::utf8::encode_utf8(name@) == rawv);
                        }
                        proof {
                            // This copy cannot fail: the writer is open, the
                            // entry was just read, and its raw name is fresh
                            // among the written names.
                            lemma_apply_len(w_before, rn_before);
                            assert forall|t: int|
                                0 <= t < w_before.len() implies (#[trigger] w_before[t]).0
                                != rawv by {
                                if exists|q: int|
                                    0 <= q < rn_before.len() && (#[trigger] rn_before[q]).0 == t {
                                    let q = choose|q: int|
                                        0 <= q < rn_before.len() && (#[trigger] rn_before[q]).0
                                            == t;
                                    assert(w_before[rn_before[q].0].0 != entries[i as int].0);
                                } else {
                                    lemma_apply_untouched(w_before, rn_before, t);
                                    assert(surviving(entries.take(i as int), codec@, filters)[t]
                                        == w_before[t]);
                                    if w_before[t].0 == rawv {
                                        assert(has_name(
                                            surviving(entries.take(i as int), codec@, filters),
                                            entries[i as int].0,
                                        ));
                                        lemma_surviving_has_name(
                                            entries.take(i as int),
                                            codec@,
                                            filters,
                                            entries[i as int].0,
                                        );
                                        let k = choose|k: int|
                                            0 <= k < entries.take(i as int).len() && entries.take(
                                                i as int,
                                            )[k].0 == entries[i as int].0;
                                        assert(entries[k].0 == entries[i as int].0);
                                        assert(false);
                                    }
                                }
                            }
                            assert(!has_name(w_before, rawv));
                        }
                        match transplant_entry(&mut archive, i, &mut dst, name.as_str()) {
                            Ok(()) => {
                                proof {
                                    let w_now = written_entries(dst);
                                    assert(w_now == w_before.push(entries[i as int]));
                                    lemma_apply_push(w_before, rn_before, entries[i as int]);
                                    assert(names_registered(w_now, taken@)) by {
                                        assert forall|t: int|
                                            0 <= t < w_now.len() implies exists|k: int|
                                            0 <= k < taken@.len() && (#[trigger] taken@[k])@ == (
                                        #[trigger] w_now[t]).0 by {
                                            if t < w_before.len() {
                                                assert(w_now[t] == w_before[t]);
                                            } else {
                                                assert((#[trigger] taken@[i as int])@ == entries[
                                                i as int].0);
                                                assert(w_now[t].0 == entries[i as int].0);
                                            }
                                        }
                                    }
                                    assert(stand_ins_foreign(w_now, rn_before, entries)) by {
                                        assert(forall|q: int|
                                            0 <= q < rn_before.len() ==> w_now[(
                                            #[trigger] rn_before[q]).0] == w_before[rn_before[q].0]);
                                    }
                                }
                                kept = kept + 1;
                            },
                            Err(e) => {
                                proof {
                                    assert(entry_readable(bytes, i as int));
                                    assert(false);
                                }
                                return Err(e);
                            },
                        }
                    },
                    None => {
                        // The raw name is not valid UTF-8: transplant the
                        // entry under a same-length stand-in and record
                        // the true bytes for the patch step.
                        proof {
                            assert(!surviving_names_utf8(entries, codec@, filters));
                        }
                        let ghost taken_before = taken@;
                        let stand_in = match fresh_placeholder(raw.len(), &mut taken, stamped) {
                            Some(name) => name,
                            None => { return Err(ZipedError::StandInExhausted) },
                        };
                        renames.push((kept, raw));
                        proof {
                            assert(rename_model(renames@) =~= rn_before.push((kept as int, rawv)));
                        }
                        proof {
                            // The stand-in is fresh among all taken names, and
                            // every written name is registered among them.
                            let stored = vstd::utf8::encode_utf8(stand_in@);
                            assert forall|t: int|
                                0 <= t < w_before.len() implies (#[trigger] w_before[t]).0
                                != stored by {
                                let k = choose|k: int|
                                    0 <= k < taken_before.len() && (#[trigger] taken_before[k])@
                                        == w_before[t].0;
                                assert(taken_before[k]@ != stored);
                            }
                            assert(!has_name(w_before, stored));
                        }
                        match transplant_entry(&mut archive, i, &mut dst, stand_in.as_str()) {
                            Ok(()) => {
                                proof {
                                    let stored = vstd::utf8::encode_utf8(stand_in@);
                                    let w_now = written_entries(dst);
                                    let rn_now = rename_model(renames@);
                                    assert(w_now == w_before.push((stored, entries[i as int].1)));
                                    vstd::utf8::encode_utf8_valid_utf8(stand_in@);
                                    assert(forall|q: int|
                                        0 <= q < rn_before.len() ==> 0 <= (
                                        #[trigger] rn_before[q]).0 < kept);
                                    assert(wf_plan(w_now, rn_now)) by {
                                        assert(forall|q: int|
                                            0 <= q < rn_before.len() ==> rn_now[q] == rn_before[q]);
                                        assert(rn_now[rn_before.len() as int] == (
                                            kept as int,
                                            rawv,
                                        ));
                                        assert(forall|q: int|
                                            0 <= q < rn_before.len() ==> w_now[(
                                            #[trigger] rn_before[q]).0] == w_before[rn_before[q].0]);
                                        assert(w_now[kept as int] == (stored, entries[i as int].1));
                                        assert(stored.len() == rawv.len());
                                    }
                                    lemma_apply_push(
                                        w_before,
                                        rn_before,
                                        (stored, entries[i as int].1),
                                    );
                                    assert(renames_in_range(w_now, rn_before));
                                    lemma_apply_snoc(w_now, rn_before, (kept as int, rawv));
                                    lemma_apply_len(w_before, rn_before);
                                    assert(apply_renames(w_now, rn_now) == rename_one(
                                        apply_renames(w_now, rn_before),
                                        (kept as int, rawv),
                                    ));
                                    assert(apply_renames(w_now, rn_before) == surviving(
                                        entries.take(i as int),
                                        codec@,
                                        filters,
                                    ).push((stored, entries[i as int].1)));
                                    assert(rename_one(
                                        surviving(entries.take(i as int), codec@, filters).push(
                                            (stored, entries[i as int].1),
                                        ),
                                        (kept as int, rawv),
                                    ) =~= surviving(entries.take(i as int), codec@, filters).push(
                                        entries[i as int],
                                    ));
                                    assert(names_registered(w_now, taken@)) by {
                                        assert forall|t: int|
                                            0 <= t < w_now.len() implies exists|k: int|
                                            0 <= k < taken@.len() && (#[trigger] taken@[k])@ == (
                                        #[trigger] w_now[t]).0 by {
                                            if t < w_before.len() {
                                                assert(w_now[t] == w_before[t]);
                                                let k = choose|k: int|
                                                    0 <= k < taken_before.len() && (
                                                    #[trigger] taken_before[k])@ == w_before[t].0;
                                                assert((#[trigger] taken@[k])@ == w_now[t].0);
                                            } else {
                                                assert((#[trigger] taken@[
                                                taken_before.len() as int])@ == stored);
                                            }
                                        }
                                    }
                                    assert(stand_ins_foreign(w_now, rn_now, entries)) by {
                                        assert(forall|q: int|
                                            0 <= q < rn_before.len() ==> rn_now[q] == rn_before[q]);
                                        assert(forall|q: int|
                                            0 <= q < rn_before.len() ==> w_now[(
                                            #[trigger] rn_before[q]).0] == w_before[rn_before[q].0]);
                                        assert forall|k: int|
                                            0 <= k < entries.len() implies w_now[kept as int].0
                                            != (#[trigger] entries[k]).0 by {
                                            assert((#[trigger] taken_before[k])@ == entries[k].0);
                                            assert(taken_before[k]@ != stored);
                                        }
                                    }
                                }
                                kept = kept + 1;
                                stamped = stamped + 1;
                            },
                            Err(e) => {
                                proof {
                                    assert(entry_readable(bytes, i as int));
                                    assert(false);
                                }
                                return Err(e)
                            },
                        }
                    },
                }
            }
            i = i + 1;
        }
        proof {
            assert(entries.take(n as int) =~= entries);
        }
        let ghost w_final = written_entries(dst);
        let ghost rn_final = rename_model(renames@);
        let out = match finalize_destination(dst) {
            Ok(b) => b,
            Err(e) => {
                proof {
                    // An open writer over in-memory bytes always finishes.
                    assert(false);
                }
                return Err(e);
            },
        };
        if renames.len() == 0 {
            proof {
                assert(rn_final =~= Seq::<RenameModel>::empty());
                assert(apply_renames(w_final, rn_final) == w_final);
            }
            return Ok(out);
        }
        proof {
            lemma_surviving_distinct(entries, codec@, filters);
        }
        match patch_raw_names(out, &renames, Ghost(w_final)) {
            Ok(patched) => Ok(patched),
            Err(e) => {
                proof {
                    // Patching a readable plain-layout archive cannot fail.
                    assert(false);
                }
                Err(e)
            },
        }
    }
}

} // verus!
