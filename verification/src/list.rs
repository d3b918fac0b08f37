//! The listing operation: a read-only pass that decodes every entry name
//! and prints the ones a single display filter matches.

use vstd::prelude::*;

use crate::archive::{
    archive_of_bytes,
    entry_count,
    entry_raw_name,
    entry_readable,
    open_archive,
    opened_from,
    source_entries,
};
use crate::cli::{seq_views, spec_parse_list, GlobalOption, ListParseModel};
use crate::cmd::Command;
use crate::encoding::{encoding_known, Codec};
use crate::errors::ZipedError;
use crate::model::{lemma_listed_take_step, listed_names};
use crate::pattern::Matcher;
use crate::text::{str_eq, str_starts_with, value_after_eq};

verus! {

/// The `ls` command: list the entry names a filter matches.
pub struct List {
    /// The display filter; `*` lists every entry.
    pub filter: String,
}

impl List {
    /// Consumes this subcommand's options from the front of `args`: each
    /// `--filter=` argument replaces the display filter (the default is
    /// `*`), and the first other argument is left for the caller.  `None`
    /// means the subcommand's usage text was requested with `-h`.
    pub fn parse(args: &mut std::collections::VecDeque<String>) -> (r: Option<Command>)
        ensures
            spec_parse_list(seq_views(old(args)@), "*"@) matches ListParseModel::ListDone {
                filter,
                rest,
            } ==> (r matches Some(c) && c matches Command::List(l) && l.filter@ == filter
                && seq_views(final(args)@) == rest),
            spec_parse_list(seq_views(old(args)@), "*"@) is ListHelp ==> r is None,
    {
        let mut filter: String = "*".to_owned();
        loop
            invariant
                spec_parse_list(seq_views(old(args)@), "*"@) == spec_parse_list(
                    seq_views(args@),
                    filter@,
                ),
            decreases args@.len(),
        {
            let ghost before = seq_views(args@);
            match args.pop_front() {
                None => {
                    proof {
                        assert(seq_views(args@) =~= before);
                    }
                    return Some(Command::List(List { filter }));
                },
                Some(arg) => {
                    proof {
                        assert(before[0] == arg@);
                        assert(seq_views(args@) =~= before.skip(1));
                    }
                    if str_eq(arg.as_str(), "-h") || str_eq(arg.as_str(), "--help") {
                        return None;
                    } else if str_starts_with(arg.as_str(), "--filter=") {
                        filter = value_after_eq(arg.as_str());
                    } else {
                        args.push_front(arg);
                        proof {
                            assert(seq_views(args@) =~= before);
                        }
                        return Some(Command::List(List { filter }));
                    }
                },
            }
        }
    }

    /// Lists the archive held in `data`: every entry name is decoded
    /// (strict UTF-8 first, the configured fallback otherwise) and the
    /// names matched by this command's filter are returned in entry
    /// order.  The archive is only read; nothing is written anywhere.
    /// Listing succeeds exactly when the bytes open as an archive, the
    /// configured encoding label is known, and every entry can be read.
    pub fn run(&self, opt: &GlobalOption, data: Vec<u8>) -> (r: Result<Vec<String>, ZipedError>)
        ensures
            r is Ok <==> (archive_of_bytes(data@) matches Some(entries) && encoding_known(
                opt.path_encoding@,
            ) && (forall|q: int| 0 <= q < entries.len() ==> entry_readable(data@, q))),
            archive_of_bytes(data@) is None ==> (r matches Err(e) && e is Archive),
            archive_of_bytes(data@) is Some && !encoding_known(opt.path_encoding@) ==> (r
                matches Err(e) && e matches ZipedError::UnknownEncoding(l) && l@
                == opt.path_encoding@),
            r matches Ok(names) ==> (archive_of_bytes(data@) matches Some(entries)
                && encoding_known(opt.path_encoding@) && names.deep_view() == listed_names(
                entries,
                opt.path_encoding@,
                self.filter@,
            )),
    {
        let ghost bytes = data@;
        let mut archive = match open_archive(data) {
            Ok(a) => a,
            Err(e) => { return Err(e) },
        };
        let codec = match Codec::new(opt.path_encoding.as_str()) {
            Ok(c) => c,
            Err(e) => { return Err(e) },
        };
        let matcher = Matcher::new(self.filter.as_str());
        let n = entry_count(&archive);
        let ghost entries = source_entries(archive);
        let mut names: Vec<String> = Vec::new();
        let mut i: usize = 0;
        while i < n
            invariant
                i <= n,
                n == entries.len(),
                bytes == data@,
                source_entries(archive) == entries,
                opened_from(archive) == bytes,
                archive_of_bytes(bytes) == Some(entries),
                encoding_known(opt.path_encoding@),
                codec@ == opt.path_encoding@,
                matcher@ == self.filter@,
                forall|q: int| 0 <= q < i ==> entry_readable(bytes, q),
                names.deep_view() == listed_names(entries.take(i as int), codec@, matcher@),
            decreases n - i,
        {
            let raw = match entry_raw_name(&mut archive, i) {
                Ok(b) => b,
                Err(e) => { return Err(e) },
            };
            let decoded = codec.decode_name(raw.as_slice());
            let ghost names_before = names.deep_view();
            if matcher.matches(decoded.as_str()) {
                names.push(decoded);
                proof {
                    assert(names.deep_view() =~= names_before.push(
                        crate::encoding::decoded_name(entries[i as int].0, codec@),
                    ));
                }
            }
            proof {
                lemma_listed_take_step(entries, codec@, matcher@, i as int);
            }
            i = i + 1;
        }
        proof {
            assert(entries.take(n as int) =~= entries);
        }
        Ok(names)
    }
}

} // verus!
