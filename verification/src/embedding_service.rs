//! The embedding service: which bookmarks still lack an embedding, and the
//! bookkeeping of a backfill run.
use vstd::prelude::*;
use crate::bookmark::{bytes_view, copy_bytes, Bookmark, BookmarkView};
use crate::error::ApplicationError;
use crate::repository::{bookmark_views, has_id, index_of_id, BookmarkStore};

verus! {

/// Whether a bookmark has no embedding.
pub open spec fn without_embedding(b: BookmarkView) -> bool {
    b.7 is None
}

/// How many of `made` hold an embedding.
pub open spec fn count_made(made: Seq<Option<Seq<u8>>>) -> nat
    decreases made.len(),
{
    if made.len() == 0 {
        0
    } else {
        count_made(made.drop_last()) + if made.last() is Some {
            1nat
        } else {
            0nat
        }
    }
}

/// The views of optional embeddings.
pub open spec fn made_views(made: Seq<Option<Vec<u8>>>) -> Seq<Option<Seq<u8>>> {
    Seq::new(made.len(), |i: int| bytes_view(made[i]))
}

/// The bookmarks of `s` without embedding, in order.
pub open spec fn pending(s: Seq<BookmarkView>) -> Seq<BookmarkView> {
    s.filter(|b: BookmarkView| without_embedding(b))
}

/// `b` with the embedding `e` when there is one, else `b` as it is.
pub open spec fn with_embedding(b: BookmarkView, e: Option<Seq<u8>>) -> BookmarkView {
    match e {
        Some(v) => (b.0, b.1, b.2, b.3, b.4, b.5, b.6, Some(v), b.8, b.9, b.10),
        None => b,
    }
}

/// The bookmarks `s` after a backfill that made `made[k]` for the `k`-th
/// bookmark without embedding: each such bookmark takes the embedding made
/// for it, when one was made; nothing else changes.
pub open spec fn backfilled(s: Seq<BookmarkView>, made: Seq<Option<Seq<u8>>>) -> Seq<BookmarkView> {
    Seq::new(
        s.len(),
        |i: int|
            if without_embedding(s[i]) {
                with_embedding(s[i], made[pending(s.take(i)).len() as int])
            } else {
                s[i]
            },
    )
}

/// The service that fills in missing embeddings.
pub struct EmbeddingService {
    repository: BookmarkStore,
}

impl EmbeddingService {
    /// A service over `repository`.
    pub fn new(repository: BookmarkStore) -> (r: EmbeddingService)
        ensures
            r.store()@ == repository@,
    {
        EmbeddingService { repository }
    }

    /// The store the service works on.
    pub closed spec fn store(&self) -> BookmarkStore {
        self.repository
    }

    /// The embedding of the stored bookmark with the id `bookmark_id`:
    /// `embedded` is what the embedder made of that bookmark's content.
    /// Refused with a not-found error when no bookmark has the id.
    pub fn get_bookmark_embedding(&self, bookmark_id: i32, embedded: Option<Vec<u8>>) -> (r: Result<
        Option<Vec<u8>>,
        ApplicationError,
    >)
        ensures
            r is Ok <==> has_id(self.store()@, bookmark_id),
            r matches Ok(e) ==> bytes_view(e) == bytes_view(embedded),
            r is Err ==> r == Err::<Option<Vec<u8>>, ApplicationError>(
                ApplicationError::BookmarkNotFound(bookmark_id),
            ),
    {
        match self.repository.get_by_id(bookmark_id) {
            Some(_) => Ok(embedded),
            None => Err(ApplicationError::BookmarkNotFound(bookmark_id)),
        }
    }

    /// The stored bookmarks that have no embedding, in order.
    pub fn bookmarks_without_embeddings(&self) -> (r: Vec<Bookmark>)
        ensures
            bookmark_views(r@) == self.store()@.filter(|b: BookmarkView| without_embedding(b)),
    {
        let all = self.repository.get_all();
        let ghost s = self.repository@;
        let ghost pred = |b: BookmarkView| without_embedding(b);
        let n = all.len();
        let mut out: Vec<Bookmark> = Vec::new();
        let mut i: usize = 0;
        assert(s.take(0) =~= Seq::<BookmarkView>::empty());
        while i < n
            invariant
                i <= n,
                n == all@.len(),
                s == bookmark_views(all@),
                pred == (|b: BookmarkView| without_embedding(b)),
                bookmark_views(out@) == s.take(i as int).filter(pred),
            decreases n - i,
        {
            reveal_with_fuel(Seq::filter, 1);
            assert(s.take(i as int + 1).drop_last() =~= s.take(i as int));
            assert(s.take(i as int + 1).last() == all@[i as int]@);
            if all[i].embedding.is_none() {
                let b = all[i].clone();
                let ghost before = out@;
                assert(bookmark_views(before).len() == before.len());
                out.push(b);
                assert(bookmark_views(out@) =~= bookmark_views(before).push(b@)) by {
                    assert forall|k: int| 0 <= k < before.len() implies #[trigger] bookmark_views(
                        out@,
                    )[k] == bookmark_views(before)[k] by {
                        assert(out@[k] == before[k]);
                    }
                }
            }
            i = i + 1;
        }
        assert(s.take(n as int) =~= s);
        out
    }

    /// Backfills embeddings for the bookmarks without one. A dry run
    /// changes nothing and counts those bookmarks. A real run takes, for
    /// each of them in order, the embedding the embedder made for it
    /// (`made`, serialised; `None` where it made none), stores it on that
    /// bookmark, and counts the bookmarks so updated.
    pub fn backfill_embeddings(&mut self, dry_run: bool, made: &Vec<Option<Vec<u8>>>) -> (r: Result<usize, ApplicationError>)
        requires
            !dry_run ==> made@.len() == pending(old(self).store()@).len(),
        ensures
            dry_run ==> (r matches Ok(n) && n == pending(old(self).store()@).len()),
            dry_run ==> final(self).store()@ == old(self).store()@,
            !dry_run ==> (r matches Ok(n) && n == count_made(made_views(made@))),
            !dry_run ==> final(self).store()@ == backfilled(old(self).store()@, made_views(made@)),
    {
        if dry_run {
            let p = self.bookmarks_without_embeddings();
            proof {
                assert(bookmark_views(p@).len() == p@.len());
            }
            return Ok(p.len());
        }
        let ghost s0 = self.repository@;
        let ghost mv = made_views(made@);
        let ghost pred = |b: BookmarkView| without_embedding(b);
        let all = self.repository.get_all();
        let n = all.len();
        let mut i: usize = 0;
        let mut j: usize = 0;
        let mut count: usize = 0;
        proof {
            assert(bookmark_views(all@).len() == all@.len());
            assert(s0.take(0) =~= Seq::<BookmarkView>::empty());
            assert(mv.take(0) =~= Seq::<Option<Seq<u8>>>::empty());
            assert(pending(s0.take(0)) =~= Seq::<BookmarkView>::empty());
        }
        while i < n
            invariant
                i <= n,
                n == all@.len(),
                n == s0.len(),
                s0 == bookmark_views(all@),
                mv == made_views(made@),
                mv.len() == pending(s0).len(),
                pred == (|b: BookmarkView| without_embedding(b)),
                j as nat == pending(s0.take(i as int)).len(),
                j <= i,
                count as nat == count_made(mv.take(j as int)),
                count <= j,
                self.repository@.len() == n,
                forall|k: int| 0 <= k < i ==> #[trigger] self.repository@[k] == backfilled(s0, mv)[k],
                forall|k: int| i <= k < n ==> #[trigger] self.repository@[k] == s0[k],
            decreases n - i,
        {
            proof {
                reveal_with_fuel(Seq::filter, 1);
                assert(s0.take(i as int + 1).drop_last() =~= s0.take(i as int));
                assert(s0.take(i as int + 1).last() == s0[i as int]);
                lemma_pending_prefix(s0, i as int);
                assert(s0[i as int] == all@[i as int]@);
            }
            if all[i].embedding.is_none() {
                proof {
                    assert(j < mv.len());
                    assert(mv.take(j as int + 1).drop_last() =~= mv.take(j as int));
                    assert(mv.take(j as int + 1).last() == mv[j as int]);
                }
                match &made[j] {
                    Some(e) => {
                        let mut b = all[i].clone();
                        b.embedding = Some(copy_bytes(e));
                        self.repository.assert_ids();
                        let ghost before = self.repository@;
                        proof {
                            assert(before[i as int] == s0[i as int]);
                            assert(index_of_id(before, b.id->Some_0) == i) by {
                                let m = index_of_id(before, b.id->Some_0);
                                assert(before[i as int].0 == b.id);
                                if m != i {
                                    assert(before[m].0 != before[i as int].0);
                                }
                            }
                        }
                        let res = self.repository.update(&b);
                        proof {
                            assert(res is Ok);
                            assert(b@ == backfilled(s0, mv)[i as int]);
                            assert forall|k: int| 0 <= k < i + 1 implies #[trigger] self.repository@[k]
                                == backfilled(s0, mv)[k] by {
                                if k < i {
                                    assert(self.repository@[k] == before[k]);
                                }
                            }
                            assert forall|k: int| i + 1 <= k < n implies #[trigger] self.repository@[k]
                                == s0[k] by {
                                assert(self.repository@[k] == before[k]);
                            }
                        }
                        count = count + 1;
                    },
                    None => {
                        proof {
                            assert(backfilled(s0, mv)[i as int] == s0[i as int]);
                        }
                    },
                }
                j = j + 1;
            } else {
                proof {
                    assert(backfilled(s0, mv)[i as int] == s0[i as int]);
                }
            }
            i = i + 1;
        }
        proof {
            assert(s0.take(n as int) =~= s0);
            assert(mv.take(j as int) =~= mv);
            assert(self.repository@ =~= backfilled(s0, mv));
        }
        Ok(count)
    }
}

/// The bookmarks without embedding among the first `i + 1` of `s` are those
/// among the first `i`, and the `i`-th one when it has no embedding.
proof fn lemma_pending_step(s: Seq<BookmarkView>, i: int)
    requires
        0 <= i < s.len(),
    ensures
        pending(s.take(i + 1)) == if without_embedding(s[i]) {
            pending(s.take(i)).push(s[i])
        } else {
            pending(s.take(i))
        },
{
    reveal_with_fuel(Seq::filter, 1);
    assert(s.take(i + 1).drop_last() =~= s.take(i));
    assert(s.take(i + 1).last() == s[i]);
}

/// A prefix of `s` holds no more bookmarks without embedding than `s`.
proof fn lemma_pending_prefix(s: Seq<BookmarkView>, i: int)
    requires
        0 <= i < s.len(),
    ensures
        pending(s.take(i + 1)) == if without_embedding(s[i]) {
            pending(s.take(i)).push(s[i])
        } else {
            pending(s.take(i))
        },
        pending(s.take(i + 1)).len() <= pending(s).len(),
    decreases s.len() - i,
{
    lemma_pending_step(s, i);
    if i + 1 == s.len() {
        assert(s.take(i + 1) =~= s);
    } else {
        lemma_pending_prefix(s, i + 1);
    }
}

} // verus!
