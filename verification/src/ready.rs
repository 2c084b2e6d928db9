//! Waiting for a device: searches one after the other, until one succeeds or
//! the time is up.
use vstd::prelude::*;

use crate::discovery;
use crate::discovery::{retry, Retry, READY_LIMIT_MS};

verus! {

/// What a wait wants next.
pub enum Ready<D, S> {
    /// Search the nodes once.
    Search,
    /// Sleep for [`crate::discovery::READY_PAUSE_MS`].
    Pause,
    /// Nothing: this device was found.
    Found(D),
    /// Nothing: the time is up, with this message.
    GaveUp(S),
}

/// What came of what a wait wanted.
pub enum News<D, S> {
    /// The search found this device.
    Found(D),
    /// The search failed with this error, and ended this many nanoseconds after
    /// the wait began.
    NotFound(S, u128),
    /// The pause is over.
    Paused,
}

/// A wait for a device.
pub struct Watch<D> {
    pub pending: Ready<D, String>,
}

/// What a wait wants, as values.
pub open spec fn shown_ready<D>(r: Ready<D, String>) -> Ready<D, Seq<char>> {
    match r {
        Ready::Search => Ready::Search,
        Ready::Pause => Ready::Pause,
        Ready::Found(d) => Ready::Found(d),
        Ready::GaveUp(message) => Ready::GaveUp(message@),
    }
}

/// News, as values.
pub open spec fn shown_news<D>(news: News<D, String>) -> News<D, Seq<char>> {
    match news {
        News::Found(d) => News::Found(d),
        News::NotFound(error, nanos) => News::NotFound(error@, nanos),
        News::Paused => News::Paused,
    }
}

impl<D> View for Watch<D> {
    type V = Ready<D, Seq<char>>;

    open spec fn view(&self) -> Ready<D, Seq<char>> {
        shown_ready(self.pending)
    }
}

/// A search that ended this many nanoseconds after the wait began ended in
/// time.
pub open spec fn in_time(nanos: u128) -> bool {
    nanos < READY_LIMIT_MS * 1_000_000
}

/// Where the news of one search leads. A device that was found counts at any
/// time; a failure in time leads to another search.
pub open spec fn after_search<D>(news: News<D, Seq<char>>) -> Ready<D, Seq<char>> {
    match news {
        News::Found(d) => Ready::Found(d),
        News::NotFound(error, nanos) => if in_time(nanos) {
            Ready::Pause
        } else {
            Ready::GaveUp(discovery::not_ready(error))
        },
        News::Paused => Ready::Search,
    }
}

impl<D, S> Ready<D, S> {
    /// The wait is over.
    pub open spec fn is_over(self) -> bool {
        self is Found || self is GaveUp
    }
}

impl<D> Ready<D, Seq<char>> {
    /// What news make of a wait. News of what was not wanted change nothing.
    pub open spec fn next(self, news: News<D, Seq<char>>) -> Ready<D, Seq<char>> {
        match self {
            Ready::Search => after_search(news),
            Ready::Pause => if news is Paused {
                Ready::Search
            } else {
                self
            },
            _ => self,
        }
    }

    /// What a run of news makes of a wait.
    pub open spec fn after(self, news: Seq<News<D, Seq<char>>>) -> Ready<D, Seq<char>>
        decreases news.len(),
    {
        if news.len() == 0 {
            self
        } else {
            self.after(news.drop_last()).next(news.last())
        }
    }
}

impl<D> Watch<D> {
    /// Starts a wait, which wants a search before anything else.
    pub fn start() -> (w: Watch<D>)
        ensures
            w@ == Ready::<D, Seq<char>>::Search,
    {
        Watch { pending: Ready::Search }
    }

    /// Takes in what came of what was wanted, and settles on what is wanted
    /// next.
    pub fn step(&mut self, news: News<D, String>)
        ensures
            final(self)@ == old(self)@.next(shown_news(news)),
    {
        match (&self.pending, news) {
            (Ready::Search, News::Found(d)) => {
                self.pending = Ready::Found(d);
            },
            (Ready::Search, News::NotFound(error, nanos)) => {
                match retry(error, nanos) {
                    Retry::Again => {
                        self.pending = Ready::Pause;
                    },
                    Retry::GiveUp(message) => {
                        self.pending = Ready::GaveUp(message);
                    },
                }
            },
            (Ready::Pause, News::Paused) => {
                self.pending = Ready::Search;
            },
            _ => {},
        }
    }
}

/// News number `i` are those of a search that the wait wanted.
pub open spec fn searched_at<D>(news: Seq<News<D, Seq<char>>>, i: int) -> bool {
    &&& 0 <= i < news.len()
    &&& Ready::<D, Seq<char>>::Search.after(news.take(i)) is Search
    &&& !(news[i] is Paused)
}

/// A search failed in time.
pub open spec fn failed_in_time<D>(news: News<D, Seq<char>>) -> bool {
    news matches News::NotFound(_, nanos) && in_time(nanos)
}

/// A wait that is over made at least one search, and its last one decided. It
/// ends with a device where the last search found that device, even past the
/// limit. It ends with a message where the last search failed at the limit or
/// past it, and the message tells that search's error. Every search before the
/// last failed in time, and none came after it.
pub proof fn law_last_search_decides<D>(news: Seq<News<D, Seq<char>>>) -> (last: int)
    requires
        Ready::<D, Seq<char>>::Search.after(news).is_over(),
    ensures
        searched_at(news, last),
        match Ready::<D, Seq<char>>::Search.after(news) {
            Ready::Found(d) => news[last] == News::<D, Seq<char>>::Found(d),
            Ready::GaveUp(message) => news[last] matches News::NotFound(error, nanos) && !in_time(
                nanos,
            ) && message == discovery::not_ready(error),
            _ => false,
        },
        forall|i: int| 0 <= i < last && #[trigger] searched_at(news, i) ==> failed_in_time(news[i]),
        forall|i: int| last < i ==> !#[trigger] searched_at(news, i),
    decreases news.len(),
{
    let begin = Ready::<D, Seq<char>>::Search;
    let rest = news.drop_last();
    let n = rest.len() as int;
    assert(news.take(n) =~= rest);
    assert forall|i: int| 0 <= i < n implies news.take(i) == #[trigger] rest.take(i) by {
        assert(news.take(i) =~= rest.take(i));
    }
    assert forall|i: int| #[trigger] searched_at(news, i) && i < n implies searched_at(rest, i) by {
        assert(news.take(i) == rest.take(i));
    }
    if begin.after(rest).is_over() {
        let last = law_last_search_decides(rest);
        assert(news.take(last) == rest.take(last));
        last
    } else {
        assert forall|i: int| 0 <= i < n && #[trigger] searched_at(news, i) implies failed_in_time(
            news[i],
        ) by {
            law_wait_goes_on_after_failures_in_time(rest, i);
        }
        n
    }
}

/// While a wait is not over, every search that it made failed in time.
pub proof fn law_wait_goes_on_after_failures_in_time<D>(news: Seq<News<D, Seq<char>>>, i: int)
    requires
        !Ready::<D, Seq<char>>::Search.after(news).is_over(),
        searched_at(news, i),
    ensures
        failed_in_time(news[i]),
    decreases news.len(),
{
    let rest = news.drop_last();
    if i < rest.len() {
        assert(news.take(i) =~= rest.take(i));
        law_wait_goes_on_after_failures_in_time(rest, i);
    } else {
        assert(news.take(i) =~= rest);
    }
}

/// The news of a series of searches, with a pause between every two.
pub open spec fn in_turn<D>(searches: Seq<News<D, Seq<char>>>) -> Seq<News<D, Seq<char>>>
    decreases searches.len(),
{
    if searches.len() == 0 {
        Seq::empty()
    } else if searches.len() == 1 {
        searches
    } else {
        in_turn(searches.drop_last()).push(News::Paused).push(searches.last())
    }
}

/// A series of searches of which all but the last failed in time leads where
/// the last one leads: to its device, whenever it ended; to another search,
/// where it failed in time; to giving up with its error, where it failed later.
pub proof fn law_series_of_searches<D>(searches: Seq<News<D, Seq<char>>>)
    requires
        searches.len() > 0,
        !(searches.last() is Paused),
        forall|i: int|
            0 <= i < searches.len() - 1 ==> failed_in_time(#[trigger] searches[i]),
    ensures
        Ready::<D, Seq<char>>::Search.after(in_turn(searches)) == after_search(searches.last()),
    decreases searches.len(),
{
    let begin = Ready::<D, Seq<char>>::Search;
    let rest = searches.drop_last();
    if searches.len() == 1 {
        assert(rest =~= Seq::empty());
        assert(begin.after(rest) == begin);
    } else {
        assert(failed_in_time(searches[searches.len() - 2]));
        assert(rest.last() == searches[searches.len() - 2]);
        law_series_of_searches(rest);
        let before = in_turn(rest);
        let paused = before.push(News::Paused);
        assert(paused.drop_last() =~= before);
        assert(paused.push(searches.last()).drop_last() =~= paused);
        assert(begin.after(paused) == begin);
    }
}

/// The limit is five seconds, and the message of a wait that was given up says
/// so and ends with the error of the last search. The pause between two searches
/// is 200 milliseconds.
pub proof fn law_limit_is_five_seconds(nanos: u128, error: Seq<char>)
    ensures
        in_time(nanos) <==> nanos < 5_000_000_000,
        discovery::not_ready(error) == "Logitech receiver did not become ready within 5000ms: "@
            + error,
        discovery::READY_PAUSE_MS == 200,
{
}

/// Where each search leads, and what follows: a device found ends the wait with
/// that device at any time; a failure before five seconds are over is followed
/// by a pause and another search; a later one ends the wait. A wait that is over
/// stays so.
pub proof fn law_what_follows_a_search<D>(
    w: Ready<D, Seq<char>>,
    d: D,
    error: Seq<char>,
    nanos: u128,
    news: News<D, Seq<char>>,
)
    ensures
        w is Search ==> w.next(News::Found(d)) == Ready::<D, Seq<char>>::Found(d),
        w is Search && nanos < 5_000_000_000 ==> w.next(News::NotFound(error, nanos)) is Pause,
        w is Search && nanos >= 5_000_000_000 ==> w.next(News::NotFound(error, nanos)) is GaveUp,
        w is Pause ==> w.next(News::Paused) is Search,
        w is Found || w is GaveUp ==> w.next(news) == w,
{
}

/// A wait is what it wants, and news are what they bring, where contracts speak
/// of them.
pub proof fn law_wait_is_what_it_wants<D>(w: Watch<D>, d: D, error: String, nanos: u128)
    ensures
        match w.pending {
            Ready::Search => w@ is Search,
            Ready::Pause => w@ is Pause,
            Ready::Found(found) => w@ == Ready::<D, Seq<char>>::Found(found),
            Ready::GaveUp(message) => w@ == Ready::<D, Seq<char>>::GaveUp(message@),
        },
        shown_news(News::<D, String>::Found(d)) == News::<D, Seq<char>>::Found(d),
        shown_news(News::<D, String>::NotFound(error, nanos)) == News::<D, Seq<char>>::NotFound(
            error@,
            nanos,
        ),
        shown_news(News::<D, String>::Paused) is Paused,
{
}

/// News of what was not wanted change nothing.
pub proof fn law_news_out_of_turn<D>(w: Ready<D, Seq<char>>, news: News<D, Seq<char>>)
    requires
        news is Paused ==> !(w is Pause),
        !(news is Paused) ==> !(w is Search),
    ensures
        w.next(news) == w,
{
}

} // verus!
