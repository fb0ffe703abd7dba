//! Fetch strategies: one per listing site, each pairing page-URL templates
//! with the extraction pattern its pages need.
//!
//! The strategies only plan and parse here: building the URLs for a page,
//! saying which requests a call issues and in what rhythm, and reading
//! records out of a retrieved body. Issuing the requests is the caller's
//! work, outside the library.

use vstd::prelude::*;

use crate::extract::{scan66, scan_happy};
use crate::proxy::Proxy;
use crate::text::{ascii_bytes_to_string, ascii_str, dec, lemma_dec_is_canonical, u64_to_dec};

verus! {

/// Seconds a multi-URL strategy waits between the requests of one call.
pub const REQUEST_DELAY_SECS: u64 = 1;

/// The page a call falls back to when none is named.
pub open spec fn page_number(page: Option<usize>) -> nat {
    match page {
        Some(p) => p as nat,
        None => 1,
    }
}

/// One step of a fetch call: issue the numbered request of the call's URL
/// list, or pause for the fixed delay.
#[derive(Debug, Clone, Copy, PartialEq, Eq, Structural)]
pub enum FetchAction {
    Request(usize),
    DelaySecs(u64),
}

/// The plan of a one-URL call.
pub open spec fn one_url_plan() -> Seq<FetchAction> {
    seq![FetchAction::Request(0)]
}

/// The plan of a two-URL call: both requests, the fixed delay between them.
pub open spec fn two_url_plan() -> Seq<FetchAction> {
    seq![
        FetchAction::Request(0),
        FetchAction::DelaySecs(REQUEST_DELAY_SECS),
        FetchAction::Request(1),
    ]
}

/// How many requests a plan issues.
pub open spec fn count_requests(plan: Seq<FetchAction>) -> nat
    decreases plan.len(),
{
    if plan.len() == 0 {
        0
    } else {
        count_requests(plan.drop_last()) + if plan.last() matches FetchAction::Request(_) {
            1nat
        } else {
            0nat
        }
    }
}

/// A two-URL call issues exactly two requests, with the fixed delay
/// standing between them.
pub proof fn lemma_two_url_plan_shape()
    ensures
        count_requests(two_url_plan()) == 2,
        two_url_plan()[1] == FetchAction::DelaySecs(REQUEST_DELAY_SECS),
{
    let p = two_url_plan();
    assert(p.drop_last().drop_last() =~= seq![FetchAction::Request(0)]);
    assert(p.drop_last().drop_last().drop_last() =~= Seq::<FetchAction>::empty());
    reveal_with_fuel(count_requests, 4);
}

/// Renders a page number in decimal.
fn page_string(page: Option<usize>) -> (r: String)
    ensures
        r@ == ascii_str(dec(page_number(page))),
{
    let p: u64 = match page {
        Some(p) => p as u64,
        None => 1,
    };
    proof {
        lemma_dec_is_canonical(p as nat);
    }
    ascii_bytes_to_string(u64_to_dec(p))
}

/// The site serving bare `<td>IP</td><td>PORT</td>` pairs.
pub struct FetcherOf66;

impl FetcherOf66 {
    pub fn new() -> Self {
        FetcherOf66
    }

    /// The one page URL of a call.
    pub fn page_urls(&self, page: Option<usize>) -> (r: Vec<String>)
        ensures
            r@.len() == 1,
            r@[0]@ == "http://www.66ip.cn/"@ + ascii_str(dec(page_number(page))) + ".html"@,
    {
        let num = page_string(page);
        let mut url = String::from_str("http://www.66ip.cn/");
        url.append(num.as_str());
        url.append(".html");
        let mut v: Vec<String> = Vec::new();
        v.push(url);
        v
    }

    /// The request rhythm of a call: one request, no pause.
    pub fn request_plan(&self, page: Option<usize>) -> (r: Vec<FetchAction>)
        ensures
            r@ == one_url_plan(),
    {
        let mut v: Vec<FetchAction> = Vec::new();
        v.push(FetchAction::Request(0));
        proof {
            assert(v@ =~= one_url_plan());
        }
        v
    }

    /// Reads every bare-pair record out of one page body.
    pub fn parse_body(&self, body: &[u8]) -> (r: Vec<Proxy>)
        ensures
            r@ == scan66(body@, 0),
    {
        crate::extract::extract_66(body)
    }
}

/// The site serving four-cell rows, two listing sections per page number.
pub struct FetcherOfHappy;

impl FetcherOfHappy {
    pub fn new() -> Self {
        FetcherOfHappy
    }

    /// The two page URLs of a call, one per listing section.
    pub fn page_urls(&self, page: Option<usize>) -> (r: Vec<String>)
        ensures
            r@.len() == 2,
            r@[0]@ == "http://www.kxdaili.com/dailiip/1/"@ + ascii_str(dec(page_number(page)))
                + ".html"@,
            r@[1]@ == "http://www.kxdaili.com/dailiip/2/"@ + ascii_str(dec(page_number(page)))
                + ".html"@,
    {
        let num = page_string(page);
        let mut first = String::from_str("http://www.kxdaili.com/dailiip/1/");
        first.append(num.as_str());
        first.append(".html");
        let mut second = String::from_str("http://www.kxdaili.com/dailiip/2/");
        second.append(num.as_str());
        second.append(".html");
        let mut v: Vec<String> = Vec::new();
        v.push(first);
        v.push(second);
        v
    }

    /// The request rhythm of a call: two requests, the fixed delay between.
    pub fn request_plan(&self, page: Option<usize>) -> (r: Vec<FetchAction>)
        ensures
            r@ == two_url_plan(),
    {
        let mut v: Vec<FetchAction> = Vec::new();
        v.push(FetchAction::Request(0));
        v.push(FetchAction::DelaySecs(REQUEST_DELAY_SECS));
        v.push(FetchAction::Request(1));
        proof {
            assert(v@ =~= two_url_plan());
        }
        v
    }

    /// Reads every four-cell record out of one page body.
    pub fn parse_body(&self, body: &[u8]) -> (r: Vec<Proxy>)
        ensures
            r@ == scan_happy(body@, 0),
    {
        crate::extract::extract_happy(body)
    }
}

/// The site serving four-cell rows under two sections, `inha` and `intr`.
pub struct FetcherOfQuick;

impl FetcherOfQuick {
    pub fn new() -> Self {
        FetcherOfQuick
    }

    /// The two page URLs of a call, one per section.
    pub fn page_urls(&self, page: Option<usize>) -> (r: Vec<String>)
        ensures
            r@.len() == 2,
            r@[0]@ == "https://free.kuaidaili.com/free/inha/"@ + ascii_str(
                dec(page_number(page)),
            ) + "/"@,
            r@[1]@ == "https://free.kuaidaili.com/free/intr/"@ + ascii_str(
                dec(page_number(page)),
            ) + "/"@,
    {
        let num = page_string(page);
        let mut first = String::from_str("https://free.kuaidaili.com/free/inha/");
        first.append(num.as_str());
        first.append("/");
        let mut second = String::from_str("https://free.kuaidaili.com/free/intr/");
        second.append(num.as_str());
        second.append("/");
        let mut v: Vec<String> = Vec::new();
        v.push(first);
        v.push(second);
        v
    }

    /// The request rhythm of a call: two requests, the fixed delay between.
    pub fn request_plan(&self, page: Option<usize>) -> (r: Vec<FetchAction>)
        ensures
            r@ == two_url_plan(),
    {
        let mut v: Vec<FetchAction> = Vec::new();
        v.push(FetchAction::Request(0));
        v.push(FetchAction::DelaySecs(REQUEST_DELAY_SECS));
        v.push(FetchAction::Request(1));
        proof {
            assert(v@ =~= two_url_plan());
        }
        v
    }

    /// Reads every four-cell record out of one page body.
    pub fn parse_body(&self, body: &[u8]) -> (r: Vec<Proxy>)
        ensures
            r@ == scan_happy(body@, 0),
    {
        crate::extract::extract_happy(body)
    }
}

/// Names the strategies a runner can drive.
#[derive(Debug, Clone, Copy, PartialEq, Eq, Structural)]
pub enum StrategyId {
    Of66,
    OfHappy,
    OfQuick,
}

/// Enumerates the active fetch strategies.
pub struct ProxyBuilder;

impl ProxyBuilder {
    /// The strategies the producer supervisor runs, in start order.
    pub fn build() -> (r: Vec<StrategyId>)
        ensures
            r@ == seq![StrategyId::Of66, StrategyId::OfHappy],
    {
        let mut v: Vec<StrategyId> = Vec::new();
        v.push(StrategyId::Of66);
        v.push(StrategyId::OfHappy);
        proof {
            assert(v@ =~= seq![StrategyId::Of66, StrategyId::OfHappy]);
        }
        v
    }
}

} // verus!
