//! The collection orchestrator: the single-run guard, per-batch ingestion,
//! and the run entry point that aggregates counts and records the run
//! outcome.

use vstd::prelude::*;
use crate::clock::now_utc_rfc3339;
use crate::errors::CollectError;
use crate::ingest::{ingest_item, RawItem};
use crate::store::{content_key_at, has_content_key, pair_freq, Content, Store};

verus! {

/// A read-only snapshot of the run state.
pub struct CollectionStatus {
    pub is_running: bool,
    pub last_run_at: Option<String>,
    pub last_error: Option<String>,
}

/// The process-wide run state: one collection run at a time, the timestamp
/// of the last terminal run outcome, and its error if it failed. Injected
/// rather than global, so contention behavior is testable.
pub struct RunCoordinator {
    pub is_running: bool,
    pub last_run_at: Option<String>,
    pub last_error: Option<String>,
}

/// Aggregate counters of one run: newly collected items (duplicates are
/// not counted) and topic links written.
#[derive(Debug)]
pub struct CollectionResult {
    pub posts_collected: u64,
    pub topics_extracted: u64,
}

/// What fetching one search target produced: a page of raw items, or a
/// failure that is logged and skipped without aborting the run.
pub enum FetchOutcome {
    Fetched(Vec<RawItem>),
    FetchFailed(String),
}

impl RunCoordinator {
    /// The idle state a process starts in.
    pub fn new() -> (c: RunCoordinator)
        ensures
            !c.is_running,
            c.last_run_at is None,
            c.last_error is None,
    {
        RunCoordinator { is_running: false, last_run_at: None, last_error: None }
    }

    /// Non-blocking check-and-set of the run guard. When a run is already
    /// active this fails immediately and changes nothing, neither the
    /// last-run timestamp nor the last error. On success the guard is held
    /// and the last error is cleared.
    pub fn try_acquire(&mut self) -> (r: Result<(), CollectError>)
        ensures
            old(self).is_running ==> r == Result::<(), CollectError>::Err(
                CollectError::AlreadyRunning,
            ) && *final(self) == *old(self),
            !old(self).is_running ==> {
                &&& r is Ok
                &&& final(self).is_running
                &&& final(self).last_run_at == old(self).last_run_at
                &&& final(self).last_error is None
            },
    {
        if self.is_running {
            return Err(CollectError::AlreadyRunning);
        }
        self.is_running = true;
        self.last_error = None;
        Ok(())
    }

    /// Unconditional release of the guard at the end of a run: the guard
    /// is never left held, the last-run timestamp is set, and the last
    /// error reflects this run's outcome (`None` on success).
    pub fn release(&mut self, now: String, error: Option<String>)
        ensures
            !final(self).is_running,
            final(self).last_run_at == Some(now),
            final(self).last_error == error,
    {
        self.is_running = false;
        self.last_run_at = Some(now);
        self.last_error = error;
    }

    /// A copy of the current run state.
    pub fn status(&self) -> (s: CollectionStatus)
        ensures
            s.is_running == self.is_running,
            s.last_run_at == self.last_run_at,
            s.last_error == self.last_error,
    {
        CollectionStatus {
            is_running: self.is_running,
            last_run_at: match &self.last_run_at {
                Some(t) => Some(t.clone()),
                None => None,
            },
            last_error: match &self.last_error {
                Some(e) => Some(e.clone()),
                None => None,
            },
        }
    }
}

/// Ingest one fetched page of raw items: after the call every item of the
/// batch has a content row under its (platform, platform_id) key, and
/// every row added came from the batch and was not stored before. Returns
/// how many items were newly collected (duplicates are not counted) and
/// how many topic links were written; the counts equal the growth of the
/// content and topic-link tables. Co-occurrence frequencies never
/// decrease.
pub fn ingest_batch(store: &mut Store, items: Vec<RawItem>, now: &String) -> (r: CollectionResult)
    requires
        old(store).wf(),
    ensures
        final(store).wf(),
        final(store).topics@ == old(store).topics@,
        final(store).content@.len() == old(store).content@.len() + r.posts_collected,
        final(store).content@.take(old(store).content@.len() as int) == old(store).content@,
        final(store).content_topics@.len() == old(store).content_topics@.len()
            + r.topics_extracted,
        final(store).content_topics@.take(old(store).content_topics@.len() as int) == old(
            store,
        ).content_topics@,
        forall|a: u64, b: u64|
            a < b ==> pair_freq(final(store).cooccurrences@, a, b) >= pair_freq(
                old(store).cooccurrences@,
                a,
                b,
            ),
        r.posts_collected <= items@.len(),
        forall|k: int|
            0 <= k < items@.len() ==> has_content_key(
                final(store).content@,
                (#[trigger] items@[k]).platform,
                items@[k].platform_id@,
            ),
        forall|j: int|
            old(store).content@.len() <= j < final(store).content@.len() ==> ((exists|k: int|
                0 <= k < items@.len() && (#[trigger] final(store).content@[j]).platform
                    == items@[k].platform && final(store).content@[j].platform_id@
                    == items@[k].platform_id@) && !has_content_key(
                old(store).content@,
                final(store).content@[j].platform,
                final(store).content@[j].platform_id@,
            )),
{
    let start_content = store.content.len();
    let start_links = store.content_topics.len();
    let ghost orig = *store;
    let ghost all = items@;
    let mut items = items;
    let ghost mut done: int = 0;
    while items.len() > 0
        invariant
            store.wf(),
            store.topics@ == orig.topics@,
            start_content == orig.content@.len(),
            start_links == orig.content_topics@.len(),
            0 <= done <= all.len(),
            items@ == all.skip(done),
            store.content@.len() - orig.content@.len() <= done,
            store.content@.len() >= orig.content@.len(),
            store.content@.take(start_content as int) == orig.content@,
            store.content_topics@.take(start_links as int) == orig.content_topics@,
            store.content_topics@.len() >= orig.content_topics@.len(),
            forall|a: u64, b: u64|
                a < b ==> pair_freq(store.cooccurrences@, a, b) >= pair_freq(
                    orig.cooccurrences@,
                    a,
                    b,
                ),
            forall|k: int|
                0 <= k < done ==> has_content_key(
                    store.content@,
                    (#[trigger] all[k]).platform,
                    all[k].platform_id@,
                ),
            forall|j: int|
                start_content <= j < store.content@.len() ==> ((exists|k: int|
                    0 <= k < all.len() && (#[trigger] store.content@[j]).platform
                        == all[k].platform && store.content@[j].platform_id@
                        == all[k].platform_id@) && !has_content_key(
                    orig.content@,
                    store.content@[j].platform,
                    store.content@[j].platform_id@,
                )),
        decreases items@.len(),
    {
        let ghost before = *store;
        let item = items.remove(0);
        proof {
            assert(all.skip(done)[0] == all[done]);
            assert(item == all[done]);
        }
        ingest_item(store, item, now);
        proof {
            // every row that existed before this item still stands, unchanged
            assert forall|q: int| 0 <= q < before.content@.len() implies store.content@[q]
                == before.content@[q] by {
                if store.content@.len() > before.content@.len() {
                    assert(store.content@.take(before.content@.len() as int)[q]
                        == before.content@[q]);
                }
            }
            assert(store.content@.take(start_content as int) =~= orig.content@) by {
                assert forall|q: int| 0 <= q < start_content implies store.content@[q]
                    == orig.content@[q] by {
                    assert(before.content@.take(start_content as int)[q] == orig.content@[q]);
                }
            }
            assert(store.content_topics@.take(start_links as int) =~= orig.content_topics@) by {
                if store.content_topics@.len() > before.content_topics@.len() {
                    assert forall|q: int| 0 <= q < start_links implies store.content_topics@[q]
                        == orig.content_topics@[q] by {
                        assert(store.content_topics@.take(before.content_topics@.len() as int)[q]
                            == before.content_topics@[q]);
                        assert(before.content_topics@.take(start_links as int)[q]
                            == orig.content_topics@[q]);
                    }
                }
            }
            assert forall|a: u64, b: u64| a < b implies pair_freq(store.cooccurrences@, a, b)
                >= pair_freq(orig.cooccurrences@, a, b) by {
                assert(pair_freq(store.cooccurrences@, a, b) >= pair_freq(
                    before.cooccurrences@,
                    a,
                    b,
                ));
            }
            // the processed prefix, this item now included, is all stored
            assert forall|k: int| 0 <= k < done + 1 implies has_content_key(
                store.content@,
                (#[trigger] all[k]).platform,
                all[k].platform_id@,
            ) by {
                if k < done {
                    let i = choose|i: int|
                        content_key_at(before.content@, all[k].platform, all[k].platform_id@, i);
                    assert(store.content@[i] == before.content@[i]);
                    assert(content_key_at(store.content@, all[k].platform, all[k].platform_id@, i));
                } else {
                    if has_content_key(before.content@, item.platform, item.platform_id@) {
                        let i = choose|i: int|
                            content_key_at(before.content@, item.platform, item.platform_id@, i);
                        assert(store.content@[i] == before.content@[i]);
                        assert(content_key_at(
                            store.content@,
                            item.platform,
                            item.platform_id@,
                            i,
                        ));
                    } else {
                        assert(content_key_at(
                            store.content@,
                            item.platform,
                            item.platform_id@,
                            store.content@.len() - 1,
                        ));
                    }
                }
            }
            // every added row carries the key of some batch item and was new
            assert forall|j: int| start_content <= j < store.content@.len() implies ((exists|
                k: int,
            |
                0 <= k < all.len() && (#[trigger] store.content@[j]).platform == all[k].platform
                    && store.content@[j].platform_id@ == all[k].platform_id@) && !has_content_key(
                orig.content@,
                store.content@[j].platform,
                store.content@[j].platform_id@,
            )) by {
                if j < before.content@.len() {
                    assert(store.content@[j] == before.content@[j]);
                } else {
                    assert(j == store.content@.len() - 1);
                    assert(store.content@[j] == store.content@.last());
                    assert(store.content@[j].platform == all[done].platform
                        && store.content@[j].platform_id@ == all[done].platform_id@);
                    assert(!has_content_key(before.content@, item.platform, item.platform_id@));
                    assert(!has_content_key(
                        orig.content@,
                        store.content@[j].platform,
                        store.content@[j].platform_id@,
                    )) by {
                        if has_content_key(orig.content@, item.platform, item.platform_id@) {
                            let i = choose|i: int|
                                content_key_at(
                                    orig.content@,
                                    item.platform,
                                    item.platform_id@,
                                    i,
                                );
                            assert(before.content@.take(start_content as int)[i]
                                == orig.content@[i]);
                            assert(content_key_at(
                                before.content@,
                                item.platform,
                                item.platform_id@,
                                i,
                            ));
                        }
                    }
                }
            }
            done = done + 1;
            assert(items@ =~= all.skip(done));
        }
    }
    proof {
        assert(all.len() - done == 0);
    }
    let end_content = store.content.len();
    let end_links = store.content_topics.len();
    CollectionResult {
        posts_collected: (end_content - start_content) as u64,
        topics_extracted: (end_links - start_links) as u64,
    }
}

/// Every item of every fetched batch has a content row in `s` under its
/// (platform, platform_id) key.
pub open spec fn batches_ingested(s: Seq<Content>, batches: Seq<FetchOutcome>) -> bool {
    forall|b: int, k: int|
        0 <= b < batches.len() && batches[b] is Fetched && 0 <= k < batches[b]->Fetched_0@.len()
            ==> has_content_key(
            s,
            (#[trigger] batches[b]->Fetched_0@[k]).platform,
            batches[b]->Fetched_0@[k].platform_id@,
        )
}

/// The row's (platform, platform_id) key occurs among the fetched items.
pub open spec fn row_from_batches(row: Content, batches: Seq<FetchOutcome>) -> bool {
    exists|b: int, k: int|
        0 <= b < batches.len() && batches[b] is Fetched && 0 <= k < batches[b]->Fetched_0@.len()
            && (#[trigger] batches[b]->Fetched_0@[k]).platform == row.platform
            && batches[b]->Fetched_0@[k].platform_id@ == row.platform_id@
}

/// Run one collection over the fetch outcomes of a non-empty target list.
/// Credential and target checks fail fast with a configuration error
/// before the guard is touched; a held guard fails immediately with
/// `AlreadyRunning` and resets neither the last-run timestamp nor the last
/// error. Otherwise every item of every fetched batch ends up stored under
/// its dedup key and every added row came from the batches (a failed fetch
/// is skipped, the run continues), the guard is released unconditionally,
/// the run timestamp is recorded and the error cleared.
pub fn run_collection(
    coord: &mut RunCoordinator,
    store: &mut Store,
    have_credentials: bool,
    batches: Vec<FetchOutcome>,
    now: &String,
) -> (r: Result<CollectionResult, CollectError>)
    requires
        old(store).wf(),
    ensures
        final(store).wf(),
        !have_credentials ==> r == Result::<CollectionResult, CollectError>::Err(
            CollectError::Configuration,
        ) && *final(coord) == *old(coord) && *final(store) == *old(store),
        have_credentials && batches@.len() == 0 ==> r == Result::<
            CollectionResult,
            CollectError,
        >::Err(CollectError::Configuration) && *final(coord) == *old(coord) && *final(store)
            == *old(store),
        have_credentials && batches@.len() > 0 && old(coord).is_running ==> r == Result::<
            CollectionResult,
            CollectError,
        >::Err(CollectError::AlreadyRunning) && *final(coord) == *old(coord) && *final(store)
            == *old(store),
        have_credentials && batches@.len() > 0 && !old(coord).is_running ==> {
            &&& r is Ok
            &&& !final(coord).is_running
            &&& final(coord).last_run_at == Some(*now)
            &&& final(coord).last_error is None
            &&& final(store).topics@ == old(store).topics@
            &&& final(store).content@.len() == old(store).content@.len()
                + r->Ok_0.posts_collected
            &&& final(store).content@.take(old(store).content@.len() as int) == old(
                store,
            ).content@
            &&& final(store).content_topics@.len() == old(store).content_topics@.len()
                + r->Ok_0.topics_extracted
            &&& (forall|a: u64, b: u64|
                a < b ==> pair_freq(final(store).cooccurrences@, a, b) >= pair_freq(
                    old(store).cooccurrences@,
                    a,
                    b,
                ))
            &&& batches_ingested(final(store).content@, batches@)
            &&& (forall|j: int|
                old(store).content@.len() <= j < final(store).content@.len()
                    ==> row_from_batches(#[trigger] final(store).content@[j], batches@)
                    && !has_content_key(
                    old(store).content@,
                    final(store).content@[j].platform,
                    final(store).content@[j].platform_id@,
                ))
        },
{
    if !have_credentials {
        return Err(CollectError::Configuration);
    }
    if batches.len() == 0 {
        return Err(CollectError::Configuration);
    }
    match coord.try_acquire() {
        Err(e) => {
            return Err(e);
        },
        Ok(_) => {},
    }
    let start_content = store.content.len();
    let start_links = store.content_topics.len();
    let ghost orig = *store;
    let ghost allb = batches@;
    let mut batches = batches;
    let ghost mut bdone: int = 0;
    while batches.len() > 0
        invariant
            store.wf(),
            store.topics@ == orig.topics@,
            start_content == orig.content@.len(),
            start_links == orig.content_topics@.len(),
            0 <= bdone <= allb.len(),
            batches@ == allb.skip(bdone),
            store.content@.len() >= orig.content@.len(),
            store.content_topics@.len() >= orig.content_topics@.len(),
            store.content@.take(start_content as int) == orig.content@,
            store.content_topics@.take(start_links as int) == orig.content_topics@,
            forall|a: u64, b: u64|
                a < b ==> pair_freq(store.cooccurrences@, a, b) >= pair_freq(
                    orig.cooccurrences@,
                    a,
                    b,
                ),
            forall|b: int, k: int|
                0 <= b < bdone && allb[b] is Fetched && 0 <= k < allb[b]->Fetched_0@.len()
                    ==> has_content_key(
                    store.content@,
                    (#[trigger] allb[b]->Fetched_0@[k]).platform,
                    allb[b]->Fetched_0@[k].platform_id@,
                ),
            forall|j: int|
                start_content <= j < store.content@.len() ==> row_from_batches(
                    #[trigger] store.content@[j],
                    allb,
                ) && !has_content_key(
                    orig.content@,
                    store.content@[j].platform,
                    store.content@[j].platform_id@,
                ),
        decreases batches@.len(),
    {
        let ghost before = *store;
        let batch = batches.remove(0);
        proof {
            assert(allb.skip(bdone)[0] == allb[bdone]);
            assert(batch == allb[bdone]);
        }
        match batch {
            FetchOutcome::Fetched(items) => {
                ingest_batch(store, items, now);
                proof {
                    assert(allb[bdone] is Fetched && allb[bdone]->Fetched_0@ == items@);
                }
            },
            FetchOutcome::FetchFailed(_) => {},
        }
        proof {
            // every row that existed before this batch still stands, unchanged
            assert forall|q: int| 0 <= q < before.content@.len() implies store.content@[q]
                == before.content@[q] by {
                if store.content@.len() > before.content@.len() {
                    assert(store.content@.take(before.content@.len() as int)[q]
                        == before.content@[q]);
                }
            }
            // the processed batches, this one now included, are all ingested
            assert forall|b: int, k: int|
                0 <= b < bdone + 1 && allb[b] is Fetched && 0 <= k < allb[b]->Fetched_0@.len()
                    implies has_content_key(
                store.content@,
                (#[trigger] allb[b]->Fetched_0@[k]).platform,
                allb[b]->Fetched_0@[k].platform_id@,
            ) by {
                if b < bdone {
                    let i = choose|i: int|
                        content_key_at(
                            before.content@,
                            allb[b]->Fetched_0@[k].platform,
                            allb[b]->Fetched_0@[k].platform_id@,
                            i,
                        );
                    assert(store.content@[i] == before.content@[i]);
                    assert(content_key_at(
                        store.content@,
                        allb[b]->Fetched_0@[k].platform,
                        allb[b]->Fetched_0@[k].platform_id@,
                        i,
                    ));
                }
            }
            // every added row carries a fetched item's key and was new
            assert forall|j: int| start_content <= j < store.content@.len() implies
                row_from_batches(#[trigger] store.content@[j], allb) && !has_content_key(
                orig.content@,
                store.content@[j].platform,
                store.content@[j].platform_id@,
            ) by {
                if j < before.content@.len() {
                    assert(store.content@[j] == before.content@[j]);
                } else {
                    let k = choose|k: int|
                        0 <= k < allb[bdone]->Fetched_0@.len() && (#[trigger] store.content@[j]).platform
                            == allb[bdone]->Fetched_0@[k].platform
                            && store.content@[j].platform_id@
                            == allb[bdone]->Fetched_0@[k].platform_id@;
                    assert(row_from_batches(store.content@[j], allb));
                    assert(!has_content_key(
                        before.content@,
                        store.content@[j].platform,
                        store.content@[j].platform_id@,
                    ));
                    assert(!has_content_key(
                        orig.content@,
                        store.content@[j].platform,
                        store.content@[j].platform_id@,
                    )) by {
                        if has_content_key(
                            orig.content@,
                            store.content@[j].platform,
                            store.content@[j].platform_id@,
                        ) {
                            let i = choose|i: int|
                                content_key_at(
                                    orig.content@,
                                    store.content@[j].platform,
                                    store.content@[j].platform_id@,
                                    i,
                                );
                            assert(before.content@.take(start_content as int)[i]
                                == orig.content@[i]);
                            assert(content_key_at(
                                before.content@,
                                store.content@[j].platform,
                                store.content@[j].platform_id@,
                                i,
                            ));
                        }
                    }
                }
            }
            bdone = bdone + 1;
            assert(batches@ =~= allb.skip(bdone));
            assert(store.content@.take(start_content as int) =~= orig.content@) by {
                assert forall|q: int| 0 <= q < start_content implies store.content@[q]
                    == orig.content@[q] by {
                    assert(store.content@.take(before.content@.len() as int)[q]
                        == before.content@[q]);
                    assert(before.content@.take(start_content as int)[q] == orig.content@[q]);
                }
            }
            assert(store.content_topics@.take(start_links as int) =~= orig.content_topics@) by {
                assert forall|q: int| 0 <= q < start_links implies store.content_topics@[q]
                    == orig.content_topics@[q] by {
                    assert(store.content_topics@.take(before.content_topics@.len() as int)[q]
                        == before.content_topics@[q]);
                    assert(before.content_topics@.take(start_links as int)[q]
                        == orig.content_topics@[q]);
                }
            }
            assert forall|a: u64, b: u64| a < b implies pair_freq(store.cooccurrences@, a, b)
                >= pair_freq(orig.cooccurrences@, a, b) by {
                assert(pair_freq(store.cooccurrences@, a, b) >= pair_freq(
                    before.cooccurrences@,
                    a,
                    b,
                ));
            }
        }
    }
    let end_content = store.content.len();
    let end_links = store.content_topics.len();
    coord.release(now.clone(), None);
    Ok(
        CollectionResult {
            posts_collected: (end_content - start_content) as u64,
            topics_extracted: (end_links - start_links) as u64,
        },
    )
}

/// `run_collection` against the wall clock: the recorded run timestamp is
/// whatever the clock read at release time.
pub fn run_collection_now(
    coord: &mut RunCoordinator,
    store: &mut Store,
    have_credentials: bool,
    batches: Vec<FetchOutcome>,
) -> (r: Result<CollectionResult, CollectError>)
    requires
        old(store).wf(),
    ensures
        final(store).wf(),
        !have_credentials ==> r == Result::<CollectionResult, CollectError>::Err(
            CollectError::Configuration,
        ) && *final(coord) == *old(coord) && *final(store) == *old(store),
        have_credentials && batches@.len() == 0 ==> r == Result::<
            CollectionResult,
            CollectError,
        >::Err(CollectError::Configuration) && *final(coord) == *old(coord) && *final(store)
            == *old(store),
        have_credentials && batches@.len() > 0 && old(coord).is_running ==> r == Result::<
            CollectionResult,
            CollectError,
        >::Err(CollectError::AlreadyRunning) && *final(coord) == *old(coord) && *final(store)
            == *old(store),
        have_credentials && batches@.len() > 0 && !old(coord).is_running ==> {
            &&& r is Ok
            &&& !final(coord).is_running
            &&& final(coord).last_run_at is Some
            &&& final(coord).last_error is None
            &&& final(store).topics@ == old(store).topics@
            &&& final(store).content@.len() == old(store).content@.len()
                + r->Ok_0.posts_collected
            &&& final(store).content@.take(old(store).content@.len() as int) == old(
                store,
            ).content@
            &&& final(store).content_topics@.len() == old(store).content_topics@.len()
                + r->Ok_0.topics_extracted
            &&& (forall|a: u64, b: u64|
                a < b ==> pair_freq(final(store).cooccurrences@, a, b) >= pair_freq(
                    old(store).cooccurrences@,
                    a,
                    b,
                ))
            &&& batches_ingested(final(store).content@, batches@)
            &&& (forall|j: int|
                old(store).content@.len() <= j < final(store).content@.len()
                    ==> row_from_batches(#[trigger] final(store).content@[j], batches@)
                    && !has_content_key(
                    old(store).content@,
                    final(store).content@[j].platform,
                    final(store).content@[j].platform_id@,
                ))
        },
{
    let now = now_utc_rfc3339();
    run_collection(coord, store, have_credentials, batches, &now)
}

} // verus!
