//! Rows from one background command, and how its last fetch went.

use vstd::prelude::*;

use crate::poller::Poller;
use crate::style::{Span, Tone};
use crate::text;

verus! {

/// What a fetch was asked for, so that one for something else can be told
/// from it.
pub trait Request: Sized {
    /// Whether the two ask for the same.
    spec fn asks_for(&self, other: &Self) -> bool;

    /// Whether the two ask for the same.
    fn same(&self, other: &Self) -> (r: bool)
        ensures
            r == self.asks_for(other),
    ;
}

impl Request for () {
    open spec fn asks_for(&self, other: &Self) -> bool {
        true
    }

    fn same(&self, other: &Self) -> (r: bool) {
        true
    }
}

impl Request for bool {
    open spec fn asks_for(&self, other: &Self) -> bool {
        *self == *other
    }

    fn same(&self, other: &Self) -> (r: bool) {
        *self == *other
    }
}

impl Request for Option<String> {
    open spec fn asks_for(&self, other: &Self) -> bool {
        match (*self, *other) {
            (Some(a), Some(b)) => a@ == b@,
            (None, None) => true,
            _ => false,
        }
    }

    fn same(&self, other: &Self) -> (r: bool) {
        match (self, other) {
            (Some(a), Some(b)) => text::same(a.as_str(), b.as_str()),
            (None, None) => true,
            _ => false,
        }
    }
}

/// Rows from one background command, and how its last fetch went. Shared by
/// the two job panes and the wallet header, which differ only in how they
/// render what arrives.
pub struct Feed<Req, T> {
    pub items: Vec<T>,
    /// Last failure, shown in place of the row count.
    pub error: Option<String>,
    /// Cleared once the first fetch comes back, so an empty result and one we
    /// have not read yet do not look the same.
    pub loading: bool,
    pub poller: Poller<Req, Vec<T>>,
}

/// A feed as a specification speaks of it.
#[verifier::ext_equal]
pub struct FeedState<Req, T> {
    pub items: Seq<T>,
    pub error: Option<String>,
    pub loading: bool,
    /// Seconds between fetches.
    pub interval: u64,
    /// What has been asked for and not been taken to the command yet.
    pub requests: Seq<Req>,
    /// What has been fetched and not been read yet.
    pub results: Seq<(Req, Result<Vec<T>, String>)>,
}

impl<Req, T> View for Feed<Req, T> {
    type V = FeedState<Req, T>;

    open spec fn view(&self) -> FeedState<Req, T> {
        FeedState {
            items: self.items@,
            error: self.error,
            loading: self.loading,
            interval: self.poller.interval,
            requests: self.poller.requests@,
            results: self.poller.results@,
        }
    }
}

/// A feed after one result: rows replace the rows and clear the failure, and a
/// failure is kept beside the rows that were there.
pub open spec fn after_result<Req, T>(
    feed: FeedState<Req, T>,
    result: Result<Vec<T>, String>,
) -> FeedState<Req, T> {
    match result {
        Ok(items) => FeedState { items: items@, error: None, loading: false, ..feed },
        Err(said) => FeedState { error: Some(said), loading: false, ..feed },
    }
}

/// A feed after those of `results` that were fetched for `request`, oldest
/// first. The others are stale and change nothing.
pub open spec fn after_results<Req: Request, T>(
    feed: FeedState<Req, T>,
    results: Seq<(Req, Result<Vec<T>, String>)>,
    request: Req,
) -> FeedState<Req, T>
    decreases results.len(),
{
    if results.len() == 0 {
        feed
    } else {
        let before = after_results(feed, results.drop_last(), request);
        if results.last().0.asks_for(&request) {
            after_result(before, results.last().1)
        } else {
            before
        }
    }
}

/// Whether any of `results` was fetched for `request`.
pub open spec fn any_for<Req: Request, Out>(results: Seq<(Req, Out)>, request: Req) -> bool {
    exists|i: int| 0 <= i < results.len() && (#[trigger] results[i]).0.asks_for(&request)
}

/// A feed that has read everything that arrived for `request`.
pub open spec fn updated<Req: Request, T>(feed: FeedState<Req, T>, request: Req) -> FeedState<
    Req,
    T,
> {
    FeedState { results: Seq::empty(), ..after_results(feed, feed.results, request) }
}

/// A feed that has asked for one more fetch.
pub open spec fn asked<Req, T>(feed: FeedState<Req, T>, request: Req) -> FeedState<Req, T> {
    FeedState { requests: feed.requests.push(request), ..feed }
}

/// A feed that nothing has arrived for.
pub open spec fn fresh<Req, T>(poller: Poller<Req, Vec<T>>) -> FeedState<Req, T> {
    FeedState {
        items: Seq::empty(),
        error: None,
        loading: true,
        interval: poller.interval,
        requests: poller.requests@,
        results: poller.results@,
    }
}

/// How the last fetch went: an error, or how many rows came back.
pub open spec fn status_of<Req, T>(feed: FeedState<Req, T>, noun: Seq<char>) -> (
    Seq<char>,
    Tone,
) {
    match feed.error {
        Some(said) => (said@, Tone::Red),
        None => if feed.loading {
            ("loading"@, Tone::Dim)
        } else {
            (text::decimal_of(feed.items.len()) + seq![' '] + noun, Tone::Dim)
        },
    }
}

impl<Req, T> Feed<Req, T> {
    pub fn new(poller: Poller<Req, Vec<T>>) -> (r: Self)
        ensures
            r@ == fresh(poller),
            r.poller == poller,
    {
        Feed { items: Vec::new(), error: None, loading: true, poller }
    }

    /// Ask for a fresh fetch now, rather than at the next tick.
    pub fn refresh(&mut self, request: Req)
        ensures
            final(self)@ == asked(old(self)@, request),
    {
        self.poller.request(request);
    }

    /// How the last fetch went: an error, or how many rows came back. Shown
    /// next to the thing it describes, because with several commands on screen
    /// one shared status line could not say which had failed.
    pub fn status(&self, noun: &str) -> (r: Span)
        ensures
            r@ == status_of(self@, noun@),
    {
        match &self.error {
            Some(said) => Span { text: said.clone(), tone: Tone::Red },
            None => if self.loading {
                Span { text: "loading".to_string(), tone: Tone::Dim }
            } else {
                let mut text = text::decimal(self.items.len() as u64);
                text.push(' ');
                text.append(noun);
                assert(text@ == text::decimal_of(self.items@.len()) + seq![' '] + noun@);
                Span { text, tone: Tone::Dim }
            },
        }
    }
}

impl<Req: Request, T> Feed<Req, T> {
    /// Take whatever the poller has finished, keeping the previous rows on
    /// screen if the command failed. Reports whether anything arrived, since
    /// a caller holding a selection has to react. What was fetched for another
    /// request is ignored: it was still in flight when the request changed.
    pub fn apply_updates(&mut self, request: &Req) -> (r: bool)
        ensures
            r == any_for(old(self)@.results, *request),
            final(self)@ == updated(old(self)@, *request),
            !r ==> final(self)@ == (FeedState { results: Seq::empty(), ..old(self)@ }),
    {
        let mut updates = self.poller.drain();
        let ghost start = self@;
        let ghost all = updates@;
        let ghost mut done: int = 0;
        let mut any = false;
        proof {
            assert(all.take(0).len() == 0);
            assert(all.skip(0) == all);
            assert(start == (FeedState { results: Seq::empty(), ..old(self)@ }));
        }
        while updates.len() > 0
            invariant
                0 <= done <= all.len(),
                updates@ == all.skip(done),
                self@ == after_results(start, all.take(done), *request),
                any == any_for(all.take(done), *request),
                !any ==> self@ == start,
            decreases updates.len(),
        {
            let (fetched, update) = updates.remove(0);
            proof {
                assert(all.take(done + 1).drop_last() == all.take(done));
                assert(all.take(done + 1).last() == (fetched, update));
                assert(updates@ == all.skip(done + 1));
                assert(forall|i: int|
                    0 <= i < done ==> #[trigger] all.take(done + 1)[i] == all.take(done)[i]);
            }
            let ghost before = self@;
            if fetched.same(request) {
                match update {
                    Ok(items) => {
                        self.items = items;
                        self.error = None;
                    },
                    Err(said) => {
                        self.error = Some(said);
                    },
                }
                self.loading = false;
                any = true;
                assert(self@ == after_result(before, update));
                assert(all.take(done + 1)[done].0.asks_for(request));
            } else {
                assert(any_for(all.take(done + 1), *request) == any_for(all.take(done), *request))
                    by {
                    if any_for(all.take(done), *request) {
                        let i = choose|i: int|
                            0 <= i < done && (#[trigger] all.take(done)[i]).0.asks_for(request);
                        assert(all.take(done + 1)[i].0.asks_for(request));
                    }
                }
            }
            proof {
                done = done + 1;
            }
        }
        proof {
            assert(all.take(done) == all);
            lemma_results_do_not_matter(old(self)@, all, *request);
        }
        any
    }
}

/// Reading results does not depend on which others are waiting.
proof fn lemma_results_do_not_matter<Req: Request, T>(
    feed: FeedState<Req, T>,
    results: Seq<(Req, Result<Vec<T>, String>)>,
    request: Req,
)
    ensures
        after_results(FeedState { results: Seq::empty(), ..feed }, results, request) == (FeedState {
            results: Seq::empty(),
            ..after_results(feed, results, request)
        }),
    decreases results.len(),
{
    if results.len() > 0 {
        lemma_results_do_not_matter(feed, results.drop_last(), request);
    }
}

/// A fetch still in flight when the request changed is ignored: results for
/// other requests leave the feed as it is.
pub proof fn lemma_stale_results_change_nothing<Req: Request, T>(
    feed: FeedState<Req, T>,
    results: Seq<(Req, Result<Vec<T>, String>)>,
    request: Req,
)
    requires
        !any_for(results, request),
    ensures
        after_results(feed, results, request) == feed,
    decreases results.len(),
{
    if results.len() > 0 {
        let last = results.len() - 1;
        assert(!results[last].0.asks_for(&request));
        assert forall|i: int| 0 <= i < last implies !(#[trigger] results.drop_last()[i]).0.asks_for(
            &request,
        ) by {
            assert(results[i] == results.drop_last()[i]);
        }
        lemma_stale_results_change_nothing(feed, results.drop_last(), request);
    }
}

/// A command that fails keeps the previous rows on screen: however many fail,
/// the rows are those there were.
pub proof fn lemma_failures_keep_the_rows<Req: Request, T>(
    feed: FeedState<Req, T>,
    results: Seq<(Req, Result<Vec<T>, String>)>,
    request: Req,
)
    requires
        forall|i: int| 0 <= i < results.len() ==> (#[trigger] results[i]).1 is Err,
    ensures
        after_results(feed, results, request).items == feed.items,
    decreases results.len(),
{
    if results.len() > 0 {
        assert forall|i: int| 0 <= i < results.len() - 1 implies (
        #[trigger] results.drop_last()[i]).1 is Err by {
            assert(results[i] == results.drop_last()[i]);
        }
        lemma_failures_keep_the_rows(feed, results.drop_last(), request);
    }
}

/// The last result decides: rows are shown without a failure, and a failure is
/// shown whatever came before it.
pub proof fn lemma_the_last_result_decides<Req: Request, T>(
    feed: FeedState<Req, T>,
    results: Seq<(Req, Result<Vec<T>, String>)>,
    fetched: Req,
    result: Result<Vec<T>, String>,
    request: Req,
)
    requires
        fetched.asks_for(&request),
    ensures
        after_results(feed, results.push((fetched, result)), request).loading == false,
        match result {
            Ok(items) => after_results(feed, results.push((fetched, result)), request).items
                == items@ && after_results(feed, results.push((fetched, result)), request).error
                is None,
            Err(said) => after_results(feed, results.push((fetched, result)), request).error
                == Some(said),
        },
{
    assert(results.push((fetched, result)).drop_last() == results);
}

/// Two requests for the queue are the same when they are for the same scope,
/// and two for a log when they are for the same path or both for none. There is
/// only one way to ask for the rest.
pub proof fn lemma_what_the_same_request_is(a: bool, b: bool, one: String, other: String)
    ensures
        a.asks_for(&b) <==> a == b,
        ().asks_for(&()),
        Some(one).asks_for(&Some(other)) <==> one@ == other@,
        None::<String>.asks_for(&None::<String>),
        !Some(one).asks_for(&None::<String>),
        !None::<String>.asks_for(&Some(one)),
{
}

/// A result for something else changes nothing, wherever it arrives.
pub proof fn lemma_a_stale_result_changes_nothing<Req: Request, T>(
    feed: FeedState<Req, T>,
    results: Seq<(Req, Result<Vec<T>, String>)>,
    fetched: Req,
    result: Result<Vec<T>, String>,
    request: Req,
)
    requires
        !fetched.asks_for(&request),
    ensures
        after_results(feed, results.push((fetched, result)), request) == after_results(
            feed,
            results,
            request,
        ),
{
    assert(results.push((fetched, result)).drop_last() == results);
}

/// Reading what has arrived leaves nothing to read, and takes nothing back that
/// has been asked for.
pub proof fn lemma_reading_leaves_nothing<Req: Request, T>(feed: FeedState<Req, T>, request: Req)
    ensures
        updated(feed, request).results.len() == 0,
        updated(feed, request).requests == feed.requests,
        updated(feed, request).interval == feed.interval,
        !any_for(feed.results, request) ==> updated(feed, request) == (FeedState {
            results: Seq::empty(),
            ..feed
        }),
        any_for(feed.results, request) ==> !updated(feed, request).loading,
{
    lemma_results_keep_the_rest(feed, feed.results, request);
    if !any_for(feed.results, request) {
        lemma_stale_results_change_nothing(feed, feed.results, request);
    }
}

/// Results change the rows and how the last fetch went, and nothing else.
proof fn lemma_results_keep_the_rest<Req: Request, T>(
    feed: FeedState<Req, T>,
    results: Seq<(Req, Result<Vec<T>, String>)>,
    request: Req,
)
    ensures
        ({
            let after = after_results(feed, results, request);
            &&& after.requests == feed.requests
            &&& after.interval == feed.interval
            &&& after.results == feed.results
            &&& any_for(results, request) ==> !after.loading
        }),
    decreases results.len(),
{
    if results.len() > 0 {
        let before = results.drop_last();
        lemma_results_keep_the_rest(feed, before, request);
        if any_for(results, request) && !results.last().0.asks_for(&request) {
            let i = choose|i: int|
                0 <= i < results.len() && (#[trigger] results[i]).0.asks_for(&request);
            assert(before[i].0.asks_for(&request));
        }
    }
}

/// What arrived last for what is shown is what is shown: its rows, or what went
/// wrong beside the rows there were.
pub proof fn lemma_the_last_to_arrive_is_shown<Req: Request, T>(
    feed: FeedState<Req, T>,
    request: Req,
)
    requires
        feed.results.len() > 0,
        feed.results.last().0.asks_for(&request),
    ensures
        match feed.results.last().1 {
            Ok(items) => updated(feed, request).items == items@ && updated(feed, request).error
                is None,
            Err(said) => updated(feed, request).error == Some(said),
        },
        !updated(feed, request).loading,
{
    let before = feed.results.drop_last();
    assert(before.push(feed.results.last()) == feed.results);
    lemma_the_last_result_decides(
        feed,
        before,
        feed.results.last().0,
        feed.results.last().1,
        request,
    );
}

/// One failure keeps the rows there were.
pub proof fn lemma_a_failure_keeps_the_rows<Req: Request, T>(
    feed: FeedState<Req, T>,
    request: Req,
    fetched: Req,
    said: String,
)
    requires
        feed.results == seq![(fetched, Err::<Vec<T>, String>(said))],
    ensures
        updated(feed, request).items == feed.items,
{
    lemma_failures_keep_the_rows(feed, feed.results, request);
}

/// Asking adds the request behind those that wait, and changes nothing on
/// screen.
pub proof fn lemma_asking_changes_nothing_shown<Req, T>(feed: FeedState<Req, T>, request: Req)
    ensures
        asked(feed, request).requests == feed.requests.push(request),
        asked(feed, request) == (FeedState { requests: asked(feed, request).requests, ..feed }),
{
}

/// A failure is said in red, in its own words. Before the first fetch there is
/// nothing to count, and after it the rows are counted.
pub proof fn lemma_what_a_status_says<Req, T>(feed: FeedState<Req, T>, noun: Seq<char>)
    ensures
        feed.error matches Some(said) ==> status_of(feed, noun) == (said@, Tone::Red),
        feed.error is None && feed.loading ==> status_of(feed, noun) == ("loading"@, Tone::Dim),
        feed.error is None && !feed.loading ==> ({
            let (said, tone) = status_of(feed, noun);
            let count = text::decimal_of(feed.items.len());
            &&& tone == Tone::Dim
            &&& said.take(count.len() as int) == count
            &&& said[count.len() as int] == ' '
            &&& said.skip(count.len() as int + 1) == noun
        }),
{
    if feed.error is None && !feed.loading {
        let said = status_of(feed, noun).0;
        let count = text::decimal_of(feed.items.len());
        assert(said == count + seq![' '] + noun);
        assert(said.take(count.len() as int) =~= count);
        assert(said.skip(count.len() as int + 1) =~= noun);
    }
}

/// Where there is only one thing to ask for, everything that arrives is for it;
/// and what arrives for a scope is for that scope.
pub proof fn lemma_what_arrives_is_for<Out>(
    results: Seq<((), Out)>,
    scoped: Seq<(bool, Out)>,
    scope: bool,
)
    ensures
        any_for(results, ()) <==> results.len() > 0,
        any_for(scoped, scope) <==> exists|i: int|
            0 <= i < scoped.len() && (#[trigger] scoped[i]).0 == scope,
{
    if results.len() > 0 {
        assert(results[0].0.asks_for(&()));
    }
    if exists|i: int| 0 <= i < scoped.len() && (#[trigger] scoped[i]).0 == scope {
        let i = choose|i: int| 0 <= i < scoped.len() && (#[trigger] scoped[i]).0 == scope;
        assert(scoped[i].0.asks_for(&scope));
    }
    if any_for(scoped, scope) {
        let i = choose|i: int| 0 <= i < scoped.len() && (#[trigger] scoped[i]).0.asks_for(&scope);
        assert(scoped[i].0 == scope);
    }
}

/// A failure changes no row, whatever arrived before it.
pub proof fn lemma_a_failure_changes_no_row<Req: Request, T>(
    feed: FeedState<Req, T>,
    results: Seq<(Req, Result<Vec<T>, String>)>,
    fetched: Req,
    said: String,
    request: Req,
)
    ensures
        after_results(
            feed,
            results.push((fetched, Err::<Vec<T>, String>(said))),
            request,
        ).items == after_results(feed, results, request).items,
{
    assert(results.push((fetched, Err::<Vec<T>, String>(said))).drop_last() == results);
}

/// Lines arrive for a log when they are for its path.
pub proof fn lemma_lines_arrive_for_a_path<Out>(
    results: Seq<(Option<String>, Out)>,
    path: String,
)
    ensures
        any_for(results, Some(path)) <==> exists|i: int|
            0 <= i < results.len() && (#[trigger] results[i]).0 is Some && results[i].0->0@ == path@,
{
    if any_for(results, Some(path)) {
        let i = choose|i: int|
            0 <= i < results.len() && (#[trigger] results[i]).0.asks_for(&Some(path));
        assert(results[i].0 is Some && results[i].0->0@ == path@);
    }
    if exists|i: int|
        0 <= i < results.len() && (#[trigger] results[i]).0 is Some && results[i].0->0@ == path@ {
        let i = choose|i: int|
            0 <= i < results.len() && (#[trigger] results[i]).0 is Some && results[i].0->0@ == path@;
        assert(results[i].0.asks_for(&Some(path)));
    }
}

/// What a feed shows and waits for is what it holds.
pub proof fn lemma_a_feed_is_what_it_holds<Req, T>(feed: Feed<Req, T>)
    ensures
        feed@.items == feed.items@,
        feed@.error == feed.error,
        feed@.loading == feed.loading,
        feed@.interval == feed.poller.interval,
        feed@.requests == feed.poller.requests@,
        feed@.results == feed.poller.results@,
{
}

} // verus!
