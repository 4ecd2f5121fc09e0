//! The paginated listing protocol: pages of items chained by
//! continuation tokens are accumulated into one flat, ordered list,
//! fetching while a token is present and stopping at the first page
//! without one. The role variant keeps only identifiers that carry the
//! domain marker, filtered per item as pages arrive.

use vstd::prelude::*;
use crate::text::{contains_substring, spec_contains};

verus! {

/// One page of a remote listing: its items in order, and the
/// continuation token for the next page if there is one.
#[derive(Clone, Debug)]
pub struct Page {
    pub items: Vec<String>,
    pub next_token: Option<String>,
}

/// The result of walking a listing: the accumulated items, how many
/// pages were fetched, and whether a page without a token ended the
/// listing (rather than the script running out).
#[derive(Clone, Debug)]
pub struct ListReport {
    pub items: Vec<String>,
    pub fetches: usize,
    pub complete: bool,
}

/// The items of the first `n` pages, in page order and item order.
pub open spec fn page_items(script: Seq<Page>, n: int) -> Seq<String>
    decreases n,
{
    if n <= 0 {
        Seq::empty()
    } else {
        page_items(script, n - 1) + script[n - 1].items@
    }
}

/// Appends one page's items to the accumulator, in order.
fn append_items(acc: &mut Vec<String>, items: &Vec<String>)
    ensures
        final(acc)@ == old(acc)@ + items@,
{
    let mut k: usize = 0;
    while k < items.len()
        invariant
            k <= items@.len(),
            acc@ == old(acc)@ + items@.take(k as int),
        decreases items@.len() - k,
    {
        proof {
            assert((old(acc)@ + items@.take(k as int)).push(items@[k as int]) =~= old(acc)@
                + items@.take(k as int + 1));
        }
        acc.push(items[k].clone());
        k = k + 1;
    }
    proof {
        assert(old(acc)@ + items@.take(items@.len() as int) =~= old(acc)@ + items@);
    }
}

/// Walks a scripted listing, one page per fetch in order: every fetched
/// page's items are kept, and fetching continues exactly while the page
/// carries a continuation token. An empty first page without a token
/// gives an empty, complete listing.
pub fn collect_pages(script: &Vec<Page>) -> (r: ListReport)
    ensures
        r.fetches <= script@.len(),
        r.items@ == page_items(script@, r.fetches as int),
        forall|j: int| 0 <= j < r.fetches - 1 ==> (#[trigger] script@[j].next_token) is Some,
        r.complete ==> r.fetches >= 1 && script@[r.fetches - 1].next_token is None,
        !r.complete ==> r.fetches == script@.len() && (script@.len() == 0 || script@[script@.len()
            - 1].next_token is Some),
{
    let n = script.len();
    let mut items: Vec<String> = Vec::new();
    let mut i: usize = 0;
    while i < n
        invariant
            i <= n,
            n == script@.len(),
            items@ == page_items(script@, i as int),
            forall|j: int| 0 <= j < i ==> (#[trigger] script@[j].next_token) is Some,
        decreases n - i,
    {
        append_items(&mut items, &script[i].items);
        if script[i].next_token.is_none() {
            return ListReport { items, fetches: i + 1, complete: true };
        }
        i = i + 1;
    }
    ListReport { items, fetches: n, complete: false }
}

/// The marker a role identifier must carry to be offered for selection.
pub open spec fn spec_keep_role(arn: Seq<char>) -> bool {
    spec_contains(arn, "glue"@)
}

/// Whether a listed role identifier carries the domain marker.
pub fn keep_role(arn: &String) -> (r: bool)
    ensures
        r == spec_keep_role(arn@),
{
    contains_substring(arn.as_str(), "glue")
}

/// The identifiers of one page that carry the marker, in page order.
pub open spec fn kept_roles(items: Seq<String>) -> Seq<String>
    decreases items.len(),
{
    if items.len() == 0 {
        Seq::empty()
    } else {
        kept_roles(items.drop_last()) + if spec_keep_role(items.last()@) {
            seq![items.last()]
        } else {
            Seq::empty()
        }
    }
}

/// Appends to the accumulator the identifiers of one page that carry the
/// marker, in page order; the filter runs per item as the page arrives.
pub fn append_matching_roles(acc: &mut Vec<String>, page_items: &Vec<String>)
    ensures
        final(acc)@ == old(acc)@ + kept_roles(page_items@),
{
    let mut k: usize = 0;
    while k < page_items.len()
        invariant
            k <= page_items@.len(),
            acc@ == old(acc)@ + kept_roles(page_items@.take(k as int)),
        decreases page_items@.len() - k,
    {
        proof {
            assert(page_items@.take(k as int + 1).drop_last() =~= page_items@.take(k as int));
            assert(page_items@.take(k as int + 1).last() == page_items@[k as int]);
        }
        if keep_role(&page_items[k]) {
            proof {
                assert((old(acc)@ + kept_roles(page_items@.take(k as int))).push(
                    page_items@[k as int],
                ) =~= old(acc)@ + kept_roles(page_items@.take(k as int + 1)));
            }
            acc.push(page_items[k].clone());
        } else {
            proof {
                assert(old(acc)@ + kept_roles(page_items@.take(k as int)) =~= old(acc)@
                    + kept_roles(page_items@.take(k as int + 1)));
            }
        }
        k = k + 1;
    }
    proof {
        assert(page_items@.take(page_items@.len() as int) =~= page_items@);
    }
}

/// The names present in one page of listed jobs, in page order; a job
/// without a name contributes nothing.
pub open spec fn present_names(names: Seq<Option<String>>) -> Seq<String>
    decreases names.len(),
{
    if names.len() == 0 {
        Seq::empty()
    } else {
        present_names(names.drop_last()) + match names.last() {
            Some(n) => seq![n],
            None => Seq::empty(),
        }
    }
}

/// Extracts the names present in one page of listed jobs, in order.
pub fn extract_names(names: &Vec<Option<String>>) -> (r: Vec<String>)
    ensures
        r@ == present_names(names@),
{
    let mut r: Vec<String> = Vec::new();
    let mut k: usize = 0;
    while k < names.len()
        invariant
            k <= names@.len(),
            r@ == present_names(names@.take(k as int)),
        decreases names@.len() - k,
    {
        proof {
            assert(names@.take(k as int + 1).drop_last() =~= names@.take(k as int));
            assert(names@.take(k as int + 1).last() == names@[k as int]);
        }
        match &names[k] {
            Some(name) => {
                proof {
                    assert(present_names(names@.take(k as int)).push(names@[k as int]->0)
                        =~= present_names(names@.take(k as int + 1)));
                }
                r.push(name.clone());
            },
            None => {
                proof {
                    assert(present_names(names@.take(k as int)) =~= present_names(
                        names@.take(k as int + 1),
                    ));
                }
            },
        }
        k = k + 1;
    }
    proof {
        assert(names@.take(names@.len() as int) =~= names@);
    }
    r
}

} // verus!
