//! The owned application context: recent files, files queued to open, and
//! the interface language.  One value of this struct is owned by the shell;
//! every mutation is specified against the previous state.
use vstd::prelude::*;
use crate::locale::{normalize_language, normalized_lang};

verus! {

/// How many recent files are remembered.
pub open spec fn recent_limit() -> int {
    10
}

/// The recent list after recording `p`: `p` first, earlier entries with
/// every copy of `p` removed, clipped to the limit.
pub open spec fn recent_after(old_list: Seq<Seq<char>>, p: Seq<char>) -> Seq<Seq<char>> {
    let kept = remove_all(old_list, p);
    let full = seq![p] + kept;
    if full.len() > recent_limit() {
        full.subrange(0, recent_limit())
    } else {
        full
    }
}

pub open spec fn remove_all(s: Seq<Seq<char>>, p: Seq<char>) -> Seq<Seq<char>>
    decreases s.len(),
{
    if s.len() == 0 {
        Seq::empty()
    } else if s[0] == p {
        remove_all(s.drop_first(), p)
    } else {
        seq![s[0]] + remove_all(s.drop_first(), p)
    }
}

pub open spec fn contains_str(s: Seq<Seq<char>>, p: Seq<char>) -> bool {
    exists|i: int| 0 <= i < s.len() && s[i] == p
}

/// The pending queue after enqueueing `paths`: each path appended once,
/// already-present paths skipped.
pub open spec fn queue_after(pending: Seq<Seq<char>>, paths: Seq<Seq<char>>) -> Seq<Seq<char>>
    decreases paths.len(),
{
    if paths.len() == 0 {
        pending
    } else if contains_str(pending, paths[0]) {
        queue_after(pending, paths.drop_first())
    } else {
        queue_after(pending.push(paths[0]), paths.drop_first())
    }
}

pub struct AppState {
    pub recent_files: Vec<String>,
    pub pending_open_files: Vec<String>,
    pub language: String,
}

impl AppState {
    /// A fresh context: empty queues and the given language.
    pub fn new(language: String) -> (r: AppState)
        ensures
            r.recent_files@.len() == 0,
            r.pending_open_files@.len() == 0,
            r.language == language,
    {
        AppState { recent_files: Vec::new(), pending_open_files: Vec::new(), language }
    }

    /// The recent files, most recent first.
    pub fn get_recent_files(&self) -> (r: Vec<String>)
        ensures
            r.deep_view() == self.recent_files.deep_view(),
    {
        let mut r: Vec<String> = Vec::new();
        let mut i: usize = 0;
        while i < self.recent_files.len()
            invariant
                i <= self.recent_files@.len(),
                r@.len() == i,
                forall|k: int| 0 <= k < i ==> #[trigger] r@[k]@ == self.recent_files@[k]@,
            decreases self.recent_files@.len() - i,
        {
            r.push(self.recent_files[i].clone());
            i = i + 1;
        }
        proof {
            assert(r.deep_view() =~~= self.recent_files.deep_view());
        }
        r
    }

    /// Records a file as most recent: moved to the front, duplicates
    /// removed, the list clipped to the limit.
    #[verifier::loop_isolation(false)]
    pub fn add_recent_file(&mut self, path: String)
        ensures
            final(self).recent_files.deep_view() == recent_after(
                old(self).recent_files.deep_view(),
                path@,
            ),
            final(self).pending_open_files == old(self).pending_open_files,
            final(self).language == old(self).language,
    {
        let ghost before = self.recent_files.deep_view();
        let mut kept: Vec<String> = Vec::new();
        let mut i: usize = 0;
        while i < self.recent_files.len()
            invariant
                i <= self.recent_files@.len(),
                self == old(self),
                kept.deep_view() == remove_all(before.subrange(0, i as int), path@),
            decreases self.recent_files@.len() - i,
    {
            let ghost kv = kept.deep_view();
            let same = self.recent_files[i] == path;
            if !same {
                kept.push(self.recent_files[i].clone());
            }
            proof {
                lemma_remove_all_snoc(before, i as int, path@);
                assert(before.subrange(0, i as int) =~= before.subrange(0, i + 1).subrange(
                    0,
                    i as int,
                ));
                assert(before[i as int] == self.recent_files@[i as int]@);
                if same {
                    assert(kept.deep_view() =~~= remove_all(before.subrange(0, i + 1), path@));
                } else {
                    assert(kept.deep_view() =~~= kv + seq![before[i as int]]);
                    assert(kept.deep_view() =~~= remove_all(before.subrange(0, i + 1), path@));
                }
            }
            i = i + 1;
        }
        proof {
            assert(before.subrange(0, before.len() as int) =~= before);
        }
        kept.insert(0, path);
        proof {
            assert(kept.deep_view() =~~= seq![path@] + remove_all(before, path@));
        }
        let limit = if kept.len() > 10 {
            10
        } else {
            kept.len()
        };
        let mut out: Vec<String> = Vec::new();
        let mut j: usize = 0;
        while j < limit
            invariant
                j <= limit <= kept@.len(),
                out@.len() == j,
                forall|k: int| 0 <= k < j ==> #[trigger] out@[k]@ == kept@[k]@,
            decreases limit - j,
        {
            out.push(kept[j].clone());
            j = j + 1;
        }
        self.recent_files = out;
        proof {
            let full = seq![path@] + remove_all(before, path@);
            assert(kept.deep_view() == full);
            assert forall|k: int| 0 <= k < limit implies self.recent_files.deep_view()[k]
                == full[k] by {
                assert(self.recent_files.deep_view()[k] == out@[k]@);
                assert(kept.deep_view()[k] == kept@[k]@);
            }
            assert(self.recent_files.deep_view() =~~= recent_after(before, path@));
        }
    }

    /// Hands out and clears the queue of files waiting to be opened.
    pub fn take_pending_open_files(&mut self) -> (r: Vec<String>)
        ensures
            r.deep_view() == old(self).pending_open_files.deep_view(),
            final(self).pending_open_files@.len() == 0,
            final(self).recent_files == old(self).recent_files,
            final(self).language == old(self).language,
    {
        let mut empty: Vec<String> = Vec::new();
        let mut r = empty;
        core::mem::swap(&mut r, &mut self.pending_open_files);
        r
    }

    /// Queues files to open, skipping paths already queued.
    #[verifier::loop_isolation(false)]
    pub fn queue_open_files(&mut self, paths: &Vec<String>)
        ensures
            final(self).pending_open_files.deep_view() == queue_after(
                old(self).pending_open_files.deep_view(),
                paths.deep_view(),
            ),
            final(self).recent_files == old(self).recent_files,
            final(self).language == old(self).language,
    {
        let n = paths.len();
        proof {
            assert(paths.deep_view().subrange(0, n as int) =~= paths.deep_view());
        }
        let mut i: usize = 0;
        while i < n
            invariant
                i <= n,
                n == paths@.len(),
                self.recent_files == old(self).recent_files,
                self.language == old(self).language,
                queue_after(self.pending_open_files.deep_view(), paths.deep_view().subrange(
                    i as int,
                    n as int,
                )) == queue_after(old(self).pending_open_files.deep_view(),
                    paths.deep_view()),
            decreases n - i,
        {
            let ghost tail = paths.deep_view().subrange(i as int, n as int);
            let ghost pv = self.pending_open_files.deep_view();
            let mut found = false;
            let mut j: usize = 0;
            while j < self.pending_open_files.len()
                invariant
                    j <= self.pending_open_files@.len(),
                    self.pending_open_files.deep_view() == pv,
                    found == exists|k: int| 0 <= k < j && pv[k] == paths.deep_view()[
                        i as int
                    ],
                decreases self.pending_open_files@.len() - j,
            {
                if self.pending_open_files[j] == paths[i] {
                    found = true;
                }
                proof {
                    assert(pv[j as int] == self.pending_open_files@[j as int]@);
                    assert(paths.deep_view()[i as int] == paths@[i as int]@);
                }
                j = j + 1;
            }
            proof {
                assert(tail[0] == paths.deep_view()[i as int]);
                assert(found == contains_str(pv, tail[0]));
                assert(tail.drop_first() =~= paths.deep_view().subrange(i + 1, n as int));
            }
            if !found {
                self.pending_open_files.push(paths[i].clone());
                proof {
                    assert(self.pending_open_files.deep_view() =~~= pv.push(tail[0]));
                }
            }
            i = i + 1;
        }
        proof {
            assert(paths.deep_view().subrange(n as int, n as int)
                =~= Seq::<Seq<char>>::empty());
        }
    }

    /// The current interface language.
    pub fn get_language(&self) -> (r: String)
        ensures
            r@ == self.language@,
    {
        self.language.clone()
    }

    /// Replaces the language with the normalized form of `lang`.
    pub fn set_language(&mut self, lang: &str)
        ensures
            final(self).language@ == normalized_lang(lang@),
            final(self).recent_files == old(self).recent_files,
            final(self).pending_open_files == old(self).pending_open_files,
    {
        self.language = normalize_language(lang);
    }
}

/// Extending the scanned prefix by one element.
proof fn lemma_remove_all_snoc(s: Seq<Seq<char>>, i: int, p: Seq<char>)
    requires
        0 <= i < s.len(),
    ensures
        remove_all(s.subrange(0, i + 1), p) == if s[i] == p {
            remove_all(s.subrange(0, i), p)
        } else {
            remove_all(s.subrange(0, i), p) + seq![s[i]]
        },
    decreases i,
{
    if i == 0 {
        assert(s.subrange(0, 1).drop_first() =~= Seq::<Seq<char>>::empty());
        assert(s.subrange(0, 0) =~= Seq::<Seq<char>>::empty());
        assert(s.subrange(0, 1)[0] == s[0]);
        if s[0] == p {
            assert(remove_all(s.subrange(0, 1), p) =~= remove_all(s.subrange(0, 0), p));
        } else {
            assert(remove_all(s.subrange(0, 1), p) =~= remove_all(s.subrange(0, 0), p) + seq![
                s[0],
            ]);
        }
    } else {
        lemma_remove_all_snoc(s.drop_first(), i - 1, p);
        assert(s.subrange(0, i + 1).drop_first() =~= s.drop_first().subrange(0, i));
        assert(s.subrange(0, i).drop_first() =~= s.drop_first().subrange(0, i - 1));
        assert(s.subrange(0, i + 1)[0] == s[0]);
        assert(s.subrange(0, i)[0] == s[0]);
        assert(s.drop_first()[i - 1] == s[i]);
        if s[0] == p {
            assert(remove_all(s.subrange(0, i + 1), p) == remove_all(s.drop_first().subrange(
                0,
                i,
            ), p));
        } else {
            if s[i] == p {
                assert(remove_all(s.subrange(0, i + 1), p) =~= remove_all(s.subrange(0, i), p));
            } else {
                assert(remove_all(s.subrange(0, i + 1), p) =~= remove_all(s.subrange(0, i), p)
                    + seq![s[i]]);
            }
        }
    }
}

} // verus!
