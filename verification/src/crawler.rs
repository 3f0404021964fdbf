//! The decisions of the crawler: which URLs it visits, in which order,
//! which responses it keeps, how often it retries, and its report.

use vstd::prelude::*;
use std::collections::VecDeque;
use crate::lines::views;
use crate::text::{contains_text, decimal, occurs_at, push_decimal};
use crate::util::{humansize, humansize_spec};

verus! {

/// How many times a page is fetched again after a failed attempt.
pub const MAX_RETRIES: u8 = 3;

/// How many workers fetch pages at once.
pub const WORKER_THREADS: usize = 16;

/// What a crawl reports: how many URLs it was given, and the size of the
/// file of crawled pages.
pub struct CrawlSummary {
    pub urls_crawled: usize,
    pub crawl_file_size: u64,
}

impl CrawlSummary {
    /// The report, as the program prints it.
    pub fn describe(&self) -> (text: String)
        ensures
            text@ == decimal(self.urls_crawled as nat) + " urls crawled\ncrawl file size: "@
                + humansize_spec(self.crawl_file_size),
    {
        let mut text = String::new();
        push_decimal(&mut text, self.urls_crawled as u64);
        text.append(" urls crawled\ncrawl file size: ");
        let size = humansize(self.crawl_file_size);
        text.append(size.as_str());
        proof {
            assert(text@ =~= decimal(self.urls_crawled as nat) + " urls crawled\ncrawl file size: "@
                + humansize_spec(self.crawl_file_size));
        }
        text
    }
}

/// A fetched page, as a line of the crawl file holds it.
pub struct CrawledPage {
    pub url: String,
    pub fetched_at: String,
    pub html: String,
}

/// The list with each run of equal neighbours cut to its first entry
/// (`Vec::dedup`).
pub open spec fn dedup_spec(s: Seq<Seq<char>>) -> Seq<Seq<char>>
    decreases s.len(),
{
    if s.len() == 0 {
        s
    } else {
        let d = dedup_spec(s.drop_last());
        if d.len() > 0 && d.last() == s.last() {
            d
        } else {
            d.push(s.last())
        }
    }
}

/// The queue of URLs that a crawl hands to its workers.
pub struct Frontier {
    urls: VecDeque<String>,
}

impl View for Frontier {
    type V = Seq<Seq<char>>;

    closed spec fn view(&self) -> Seq<Seq<char>> {
        views(self.urls@)
    }
}

impl Frontier {
    /// The queue of `urls`, with repeated neighbours dropped.
    pub fn new(urls: Vec<String>) -> (f: Frontier)
        ensures
            f@ == dedup_spec(views(urls@)),
    {
        let mut queue: VecDeque<String> = VecDeque::new();
        let mut i: usize = 0;
        assert(views(queue@) =~= dedup_spec(views(urls@).take(0)));
        while i < urls.len()
            invariant
                i <= urls.len(),
                views(queue@) == dedup_spec(views(urls@).take(i as int)),
                i > 0 ==> queue@.len() > 0 && queue@.last()@ == urls@[i - 1]@,
            decreases urls.len() - i,
        {
            proof {
                assert(views(urls@).take(i + 1).drop_last() =~= views(urls@).take(i as int));
                assert(views(urls@).take(i + 1).last() == urls@[i as int]@);
            }
            let keep = if i == 0 {
                true
            } else {
                urls[i] != urls[i - 1]
            };
            if keep {
                queue.push_back(urls[i].clone());
                proof {
                    assert(views(queue@) =~= dedup_spec(views(urls@).take(i as int)).push(urls@[i as int]@));
                }
            } else {
                proof {
                    assert(views(queue@).last() == queue@.last()@);
                }
            }
            i = i + 1;
        }
        proof {
            assert(views(urls@).take(urls.len() as int) =~= views(urls@));
        }
        Frontier { urls: queue }
    }

    /// Takes the URL at the front of the queue.
    pub fn next_url(&mut self) -> (r: Option<String>)
        ensures
            old(self)@.len() == 0 ==> r is None && final(self)@ == old(self)@,
            old(self)@.len() > 0 ==> (r matches Some(u) && u@ == old(self)@[0] && final(self)@
                == old(self)@.drop_first()),
    {
        let r = self.urls.pop_front();
        proof {
            if old(self)@.len() > 0 {
                assert(views(self.urls@) =~= views(old(self).urls@).drop_first());
            }
        }
        r
    }

    /// Puts a URL at the back of the queue, after handing it out failed.
    pub fn requeue(&mut self, url: String)
        ensures
            final(self)@ == old(self)@.push(url@),
    {
        self.urls.push_back(url);
        proof {
            assert(views(self.urls@) =~= views(old(self).urls@).push(url@));
        }
    }
}

/// After `retries` retries of a page have failed: the count for one more
/// attempt, or `None` when no retry is left.
pub fn next_retry(retries: u8) -> (r: Option<u8>)
    ensures
        retries < MAX_RETRIES ==> r == Some((retries + 1) as u8),
        retries >= MAX_RETRIES ==> r is None,
{
    if retries < MAX_RETRIES {
        Some(retries + 1)
    } else {
        None
    }
}

/// Whether a response is kept: its status is a success and its content
/// type (empty when missing or unreadable) contains `text/html`.
pub fn is_html_page(success: bool, content_type: &str) -> (keep: bool)
    ensures
        keep == (success && exists|i: int| occurs_at(content_type@, "text/html"@, i)),
{
    success && contains_text(content_type, "text/html")
}

/// The queue holds no two equal neighbours, and every URL given is in it.
pub proof fn lemma_dedup(s: Seq<Seq<char>>)
    ensures
        forall|i: int, j: int|
            0 <= i && j == i + 1 && j < dedup_spec(s).len() ==> #[trigger] dedup_spec(s)[i]
                != #[trigger] dedup_spec(s)[j],
        forall|i: int| 0 <= i < s.len() ==> dedup_spec(s).contains(#[trigger] s[i]),
        dedup_spec(s).len() <= s.len(),
    decreases s.len(),
{
    if s.len() > 0 {
        let prev = s.drop_last();
        lemma_dedup(prev);
        let d = dedup_spec(prev);
        assert forall|i: int| 0 <= i < s.len() implies dedup_spec(s).contains(#[trigger] s[i]) by {
            if i < prev.len() {
                assert(prev[i] == s[i]);
                let k = choose|k: int| 0 <= k < d.len() && d[k] == prev[i];
                if !(d.len() > 0 && d.last() == s.last()) {
                    assert(d.push(s.last())[k] == s[i]);
                }
            } else {
                if d.len() > 0 && d.last() == s.last() {
                    assert(d[d.len() - 1] == s[i]);
                } else {
                    assert(d.push(s.last())[d.len() as int] == s[i]);
                }
            }
        }
        if !(d.len() > 0 && d.last() == s.last()) {
            assert forall|i: int, j: int|
                0 <= i && j == i + 1 && j < dedup_spec(s).len() implies #[trigger] dedup_spec(s)[i]
                != #[trigger] dedup_spec(s)[j] by {
                if j < d.len() {
                    assert(dedup_spec(s)[i] == d[i]);
                    assert(dedup_spec(s)[j] == d[j]);
                } else {
                    assert(dedup_spec(s)[i] == d.last());
                }
            }
        }
    }
}

} // verus!
