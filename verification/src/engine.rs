//! The run engine: folds per-file classification outcomes into the three
//! aggregates of a run — the per-file details, the total number of files
//! observed, and the number of files ignored.

use vstd::prelude::*;
use vstd::multiset::Multiset;
use crate::classify::{classify, spec_classify};
use crate::config::{spec_default_config, spec_lookup, Config, LanguageInfoV};
use crate::detail::Detail;
use crate::error::ClocError;
use crate::paths::{extension_of, spec_extension};

verus! {

/// One file handed to the engine: its path and the outcome of reading its
/// content as text.
pub struct FileInput {
    pub path: Vec<u8>,
    pub read: Result<Vec<u8>, ClocError>,
}

/// The mathematical shape of a [`FileInput`].
pub struct FileInputV {
    pub path: Seq<u8>,
    pub read: Result<Seq<u8>, ClocError>,
}

impl View for FileInput {
    type V = FileInputV;

    open spec fn view(&self) -> FileInputV {
        FileInputV {
            path: self.path@,
            read: match self.read {
                Ok(ref c) => Ok(c@),
                Err(e) => Err(e),
            },
        }
    }
}

pub open spec fn inputs_view(files: Seq<FileInput>) -> Seq<FileInputV> {
    files.map_values(|f: FileInput| f@)
}

/// What one file contributes to a run: its detail when its extension is
/// registered and its content was read, and nothing when it is ignored.
/// A file whose extension is unknown, or whose read failed with either
/// error kind, is ignored; this engine counts every read failure as
/// ignored rather than dropping some silently.
pub open spec fn spec_outcome(
    f: FileInputV,
    cfg: Seq<(Seq<u8>, LanguageInfoV)>,
) -> Option<Detail> {
    match spec_lookup(cfg, spec_extension(f.path)) {
        None => None,
        Some(info) => match f.read {
            Err(_) => None,
            Ok(content) => {
                let c = spec_classify(content, info.single, info.multi);
                Some(
                    Detail {
                        language: info.language,
                        bytes: content.len() as u64,
                        blank: c.0 as usize,
                        comment: c.1 as usize,
                        code: c.2 as usize,
                    },
                )
            },
        },
    }
}

/// The details of the classified files, in input order.
pub open spec fn spec_details(
    files: Seq<FileInputV>,
    cfg: Seq<(Seq<u8>, LanguageInfoV)>,
) -> Seq<Detail>
    decreases files.len(),
{
    if files.len() == 0 {
        Seq::empty()
    } else {
        spec_details(files.drop_last(), cfg) + match spec_outcome(files.last(), cfg) {
            Some(d) => seq![d],
            None => Seq::empty(),
        }
    }
}

/// How many of the files are ignored.
pub open spec fn spec_ignored(
    files: Seq<FileInputV>,
    cfg: Seq<(Seq<u8>, LanguageInfoV)>,
) -> nat
    decreases files.len(),
{
    if files.len() == 0 {
        0
    } else {
        spec_ignored(files.drop_last(), cfg) + if spec_outcome(files.last(), cfg) is None {
            1nat
        } else {
            0nat
        }
    }
}

/// What one file contributes to the multiset of details.
pub open spec fn outcome_details(
    f: FileInputV,
    cfg: Seq<(Seq<u8>, LanguageInfoV)>,
) -> Multiset<Detail> {
    match spec_outcome(f, cfg) {
        Some(d) => Multiset::empty().insert(d),
        None => Multiset::empty(),
    }
}

/// What one file contributes to the ignored count.
pub open spec fn outcome_ignored(f: FileInputV, cfg: Seq<(Seq<u8>, LanguageInfoV)>) -> nat {
    if spec_outcome(f, cfg) is None {
        1
    } else {
        0
    }
}

proof fn lemma_ignored_remove(
    files: Seq<FileInputV>,
    i: int,
    cfg: Seq<(Seq<u8>, LanguageInfoV)>,
)
    requires
        0 <= i < files.len(),
    ensures
        spec_ignored(files, cfg) == spec_ignored(files.remove(i), cfg) + outcome_ignored(
            files[i],
            cfg,
        ),
    decreases files.len(),
{
    if i == files.len() - 1 {
        assert(files.remove(i) =~= files.drop_last());
    } else {
        let dl = files.drop_last();
        assert(files.remove(i).drop_last() =~= dl.remove(i));
        assert(files.remove(i).last() == files.last());
        assert(dl[i] == files[i]);
        lemma_ignored_remove(dl, i, cfg);
    }
}

proof fn lemma_details_remove(
    files: Seq<FileInputV>,
    i: int,
    cfg: Seq<(Seq<u8>, LanguageInfoV)>,
)
    requires
        0 <= i < files.len(),
    ensures
        spec_details(files, cfg).to_multiset() == spec_details(files.remove(i), cfg).to_multiset()
            .add(outcome_details(files[i], cfg)),
    decreases files.len(),
{
    broadcast use vstd::seq_lib::group_to_multiset_ensures, vstd::multiset::group_multiset_axioms;

    if i == files.len() - 1 {
        assert(files.remove(i) =~= files.drop_last());
        match spec_outcome(files.last(), cfg) {
            Some(d) => {
                assert(spec_details(files, cfg) =~= spec_details(files.drop_last(), cfg).push(d));
                assert(spec_details(files, cfg).to_multiset() =~= spec_details(
                    files.drop_last(),
                    cfg,
                ).to_multiset().add(Multiset::empty().insert(d)));
            },
            None => {
                assert(spec_details(files, cfg) =~= spec_details(files.drop_last(), cfg));
                assert(spec_details(files, cfg).to_multiset() =~= spec_details(
                    files.drop_last(),
                    cfg,
                ).to_multiset().add(Multiset::empty()));
            },
        }
    } else {
        let dl = files.drop_last();
        assert(files.remove(i).drop_last() =~= dl.remove(i));
        assert(files.remove(i).last() == files.last());
        assert(dl[i] == files[i]);
        lemma_details_remove(dl, i, cfg);
        match spec_outcome(files.last(), cfg) {
            Some(d) => {
                assert(spec_details(files, cfg) =~= spec_details(dl, cfg).push(d));
                assert(spec_details(files.remove(i), cfg) =~= spec_details(
                    dl.remove(i),
                    cfg,
                ).push(d));
                assert(spec_details(files, cfg).to_multiset() =~= spec_details(
                    files.remove(i),
                    cfg,
                ).to_multiset().add(outcome_details(files[i], cfg)));
            },
            None => {
                assert(spec_details(files, cfg) =~= spec_details(dl, cfg));
                assert(spec_details(files.remove(i), cfg) =~= spec_details(dl.remove(i), cfg));
            },
        }
    }
}

/// Law: the aggregates of a run do not depend on the order in which files
/// are processed — two runs over the same multiset of inputs agree on the
/// total, on the ignored count, and on the multiset of per-file details.
pub proof fn lemma_order_independent(
    fs1: Seq<FileInputV>,
    fs2: Seq<FileInputV>,
    cfg: Seq<(Seq<u8>, LanguageInfoV)>,
)
    requires
        fs1.to_multiset() == fs2.to_multiset(),
    ensures
        fs1.len() == fs2.len(),
        spec_ignored(fs1, cfg) == spec_ignored(fs2, cfg),
        spec_details(fs1, cfg).to_multiset() == spec_details(fs2, cfg).to_multiset(),
    decreases fs1.len(),
{
    broadcast use vstd::seq_lib::group_to_multiset_ensures, vstd::multiset::group_multiset_axioms;

    assert(fs1.to_multiset().len() == fs1.len());
    assert(fs2.to_multiset().len() == fs2.len());
    if fs1.len() == 0 {
        assert(fs2.len() == 0);
    } else {
        let n1 = fs1.len() - 1;
        let x = fs1[n1 as int];
        assert(fs1.contains(x));
        assert(fs1.to_multiset().count(x) > 0);
        assert(fs2.to_multiset().count(x) > 0);
        assert(fs2.contains(x));
        let i = choose|i: int| 0 <= i < fs2.len() && fs2[i] == x;
        let fs1p = fs1.remove(n1 as int);
        let fs2p = fs2.remove(i);
        assert(fs1p.to_multiset() == fs1.to_multiset().remove(x));
        assert(fs2p.to_multiset() == fs2.to_multiset().remove(x));
        lemma_order_independent(fs1p, fs2p, cfg);
        lemma_ignored_remove(fs1, n1 as int, cfg);
        lemma_ignored_remove(fs2, i, cfg);
        lemma_details_remove(fs1, n1 as int, cfg);
        lemma_details_remove(fs2, i, cfg);
    }
}

/// Runs one full scan over already-read file inputs and aggregates them.
pub struct Engine {
    pub config: Config,
    pub entry: String,
}

/// Classifies one file against the registry: looks its extension up,
/// classifies the content on success, and yields nothing when the file is
/// to be ignored.
pub fn calculate_file(config: &Config, file: &FileInput) -> (r: Option<Detail>)
    ensures
        r == spec_outcome(file@, config@),
{
    let ext = extension_of(&file.path);
    match config.get_by_extension(&ext) {
        None => None,
        Some(info) => match &file.read {
            Err(_) => None,
            Ok(content) => {
                let c = classify(content, info);
                Some(
                    Detail {
                        language: info.language,
                        bytes: content.len() as u64,
                        blank: c.blank,
                        comment: c.comment,
                        code: c.code,
                    },
                )
            },
        },
    }
}

impl Engine {
    /// An engine for the tree rooted at `entry`, with the built-in language
    /// table.
    pub fn new(entry: String) -> (e: Engine)
        ensures
            e.config@ == spec_default_config(),
            e.entry@ == entry@,
    {
        Engine { config: Config::default(), entry }
    }

    /// Aggregates every input: each file is counted once in the total, and
    /// becomes either exactly one detail or exactly one increment of the
    /// ignored count — the run loses no file.
    pub fn calculate(self, files: Vec<FileInput>) -> (r: (Vec<Detail>, usize, usize))
        ensures
            r.0@ == spec_details(inputs_view(files@), self.config@),
            r.1 == files@.len(),
            r.2 == spec_ignored(inputs_view(files@), self.config@),
            r.1 == r.2 + r.0@.len(),
    {
        let mut details: Vec<Detail> = Vec::new();
        let mut total: usize = 0;
        let mut ignored: usize = 0;
        let mut k: usize = 0;
        proof {
            assert(inputs_view(files@).take(0) =~= Seq::<FileInputV>::empty());
        }
        while k < files.len()
            invariant
                k <= files@.len(),
                total == k,
                details@ == spec_details(inputs_view(files@).take(k as int), self.config@),
                ignored == spec_ignored(inputs_view(files@).take(k as int), self.config@),
                k == ignored + details@.len(),
            decreases files@.len() - k,
        {
            let outcome = calculate_file(&self.config, &files[k]);
            proof {
                let iv = inputs_view(files@);
                assert(iv[k as int] == files@[k as int]@);
                assert(iv.take(k as int + 1).drop_last() =~= iv.take(k as int));
                assert(iv.take(k as int + 1).last() == iv[k as int]);
            }
            total += 1;
            match outcome {
                Some(d) => {
                    details.push(d);
                },
                None => {
                    ignored += 1;
                },
            }
            k += 1;
        }
        proof {
            assert(inputs_view(files@).take(files@.len() as int) =~= inputs_view(files@));
        }
        (details, total, ignored)
    }
}

} // verus!
