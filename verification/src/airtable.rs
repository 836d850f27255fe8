//! The paginated record fetcher: request-URI construction and the
//! cursor-driven accumulation of pages into one ordered record sequence.
//!
//! A response carries a page of records and an optional continuation
//! cursor. The fetcher treats the absence of a cursor as the authoritative
//! terminal signal and follows cursors until one is absent, concatenating
//! the pages in arrival order.

use vstd::prelude::*;

use crate::errors::PipelineError;

verus! {

/// A generic record envelope as the external source returns it: external
/// identifier, a typed fields payload opaque to the pipeline, and the
/// creation timestamp text.
#[derive(Debug)]
pub struct Record<T> {
    pub id: String,
    pub fields: T,
    pub created_time: String,
}

/// Options of a record-listing request.
#[derive(Debug)]
pub struct ListRecordsOptions {
    pub fields: Option<Vec<String>>,
    pub view: Option<String>,
    pub offset: Option<String>,
}

/// One page of records plus the continuation cursor, if the source has
/// more.
#[derive(Debug)]
pub struct ListRecordsResponse<T> {
    pub records: Vec<Record<T>>,
    pub offset: Option<String>,
}

/// One base accessible to the caller.
#[derive(Debug)]
pub struct Base {
    pub id: String,
    pub name: String,
    pub permission_level: String,
}

/// The bases accessible to the caller.
#[derive(Debug)]
pub struct Bases {
    pub bases: Vec<Base>,
    pub offset: Option<String>,
}

/// One view of a table in the source's schema.
#[derive(Debug)]
pub struct TableView {
    pub id: String,
    pub kind: String,
    pub name: String,
    pub visible_field_ids: Option<Vec<String>>,
}

/// The field-filter portion of a record-listing URI: one encoded
/// `fields[]` parameter per requested field, in order.
pub open spec fn fields_query_spec(fields: Seq<String>) -> Seq<char>
    decreases fields.len(),
{
    if fields.len() == 0 {
        Seq::empty()
    } else {
        fields_query_spec(fields.drop_last()) + "&fields%5B%5D="@ + fields.last()@
    }
}

/// The full record-listing URI for a base, table and options.
pub open spec fn list_records_uri_spec(
    base: Seq<char>,
    table: Seq<char>,
    opts: ListRecordsOptions,
) -> Seq<char> {
    "https://api.airtable.com/v0/"@ + base + "/"@ + table + "?"@ + (match opts.fields {
        Some(fs) => fields_query_spec(fs@),
        None => Seq::empty(),
    }) + (match opts.view {
        Some(v) => "&view="@ + v@,
        None => Seq::empty(),
    }) + (match opts.offset {
        Some(o) => "&offset="@ + o@,
        None => Seq::empty(),
    })
}

/// Builds the record-listing URI exactly as `list_records_uri_spec`
/// describes it.
pub fn build_list_records_uri(base: &str, table: &str, opts: &ListRecordsOptions) -> (r: String)
    ensures
        r@ == list_records_uri_spec(base@, table@, *opts),
{
    let mut uri = String::new();
    uri.append("https://api.airtable.com/v0/");
    uri.append(base);
    uri.append("/");
    uri.append(table);
    uri.append("?");
    let ghost head = "https://api.airtable.com/v0/"@ + base@ + "/"@ + table@ + "?"@;
    proof {
        assert(uri@ =~= head);
    }
    match &opts.fields {
        Some(fs) => {
            let n = fs.len();
            let mut i: usize = 0;
            while i < n
                invariant
                    n == fs.len(),
                    i <= n,
                    uri@ == head + fields_query_spec(fs@.take(i as int)),
                decreases n - i,
            {
                uri.append("&fields%5B%5D=");
                uri.append(fs[i].as_str());
                proof {
                    assert(fs@.take(i as int + 1).drop_last() =~= fs@.take(i as int));
                    assert(fs@.take(i as int + 1).last() == fs@[i as int]);
                    assert(uri@ =~= head + fields_query_spec(fs@.take(i as int + 1)));
                }
                i += 1;
            }
            proof {
                assert(fs@.take(n as int) =~= fs@);
            }
        },
        None => {
            proof {
                assert(uri@ =~= head + Seq::<char>::empty());
            }
        },
    }
    let ghost with_fields = uri@;
    match &opts.view {
        Some(v) => {
            uri.append("&view=");
            uri.append(v.as_str());
            proof {
                assert(uri@ =~= with_fields + ("&view="@ + v@));
            }
        },
        None => {},
    }
    let ghost with_view = uri@;
    match &opts.offset {
        Some(o) => {
            uri.append("&offset=");
            uri.append(o.as_str());
            proof {
                assert(uri@ =~= with_view + ("&offset="@ + o@));
            }
        },
        None => {},
    }
    proof {
        assert(uri@ =~= list_records_uri_spec(base@, table@, *opts));
    }
    uri
}

/// The concatenation of the records of the first `k` pages, in arrival
/// order.
pub open spec fn flat_prefix<T>(pages: Seq<ListRecordsResponse<T>>, k: int) -> Seq<Record<T>>
    decreases k,
{
    if k <= 0 {
        Seq::empty()
    } else {
        flat_prefix(pages, k - 1) + pages[k - 1].records@
    }
}

/// The in-flight state of one paginated fetch: the records accumulated so
/// far, the number of requests issued, the cursor to follow next, and
/// whether the source has signalled completion by omitting the cursor.
pub struct PageFetch<T> {
    pub records: Vec<Record<T>>,
    pub requests: usize,
    pub next_offset: Option<String>,
    pub done: bool,
}

impl<T> PageFetch<T> {
    /// A fetch that has not issued any request yet.
    pub fn new() -> (r: PageFetch<T>)
        ensures
            r.records@ == Seq::<Record<T>>::empty(),
            r.requests == 0,
            r.next_offset is None,
            !r.done,
    {
        let r = PageFetch { records: Vec::new(), requests: 0, next_offset: None, done: false };
        proof {
            assert(r.records@ =~= Seq::<Record<T>>::empty());
        }
        r
    }

    /// Absorbs one response: appends its records in arrival order, counts
    /// the request, and takes the absence of a continuation cursor as the
    /// terminal signal.
    pub fn absorb_page(&mut self, resp: ListRecordsResponse<T>) -> (r: ())
        requires
            !old(self).done,
            old(self).requests < usize::MAX,
        ensures
            final(self).records@ == old(self).records@ + resp.records@,
            final(self).requests == old(self).requests + 1,
            final(self).done == (resp.offset is None),
            final(self).next_offset == resp.offset,
    {
        let ListRecordsResponse { mut records, offset } = resp;
        self.records.append(&mut records);
        self.requests = self.requests + 1;
        self.done = offset.is_none();
        self.next_offset = offset;
    }
}

/// Drives one complete fetch over a supplied sequence of responses, as the
/// asynchronous pipeline does over live responses: pages are consumed in
/// order and the fetch stops at the first response without a continuation
/// cursor. Fails when the pages run out while the source still promises
/// more.
pub fn list_all_records<T>(pages: Vec<ListRecordsResponse<T>>) -> (r: Result<
    (Vec<Record<T>>, usize),
    PipelineError,
>)
    requires
        pages@.len() < usize::MAX,
    ensures
        (match r {
            Result::Ok(out) => out.1 >= 1 && out.1 <= pages@.len() && (pages@[out.1 - 1].offset
                is None) && (forall|j: int|
                0 <= j < out.1 - 1 ==> (#[trigger] pages@[j].offset) is Some) && out.0@
                == flat_prefix(pages@, out.1 as int),
            Result::Err(e) => e == PipelineError::Validation && (forall|j: int|
                0 <= j < pages@.len() ==> (#[trigger] pages@[j].offset) is Some),
        }),
{
    let ghost p0 = pages@;
    let mut rest = pages;
    let mut fetch: PageFetch<T> = PageFetch::new();
    while !fetch.done
        invariant
            p0 == pages@,
            p0.len() < usize::MAX,
            rest@.len() <= p0.len(),
            fetch.requests + rest@.len() == p0.len(),
            rest@ == p0.subrange(fetch.requests as int, p0.len() as int),
            fetch.records@ == flat_prefix(p0, fetch.requests as int),
            fetch.done ==> fetch.requests >= 1 && (p0[fetch.requests - 1].offset is None),
            forall|j: int|
                0 <= j < fetch.requests - (if fetch.done {
                    1int
                } else {
                    0int
                }) ==> (#[trigger] p0[j].offset) is Some,
        decreases rest@.len() + (if fetch.done {
            0int
        } else {
            1int
        }),
    {
        if rest.len() == 0 {
            proof {
                assert forall|j: int|
                    0 <= j < p0.len() implies (#[trigger] p0[j].offset) is Some by {
                    assert(j < fetch.requests);
                }
            }
            return Err(PipelineError::Validation);
        }
        let page = rest.remove(0);
        let ghost reqs = fetch.requests as int;
        proof {
            assert(page == p0[reqs]);
        }
        fetch.absorb_page(page);
        proof {
            assert(rest@ =~= p0.subrange(reqs + 1, p0.len() as int));
            assert(fetch.records@ == flat_prefix(p0, reqs + 1));
        }
    }
    let used = fetch.requests;
    Ok((fetch.records, used))
}

/// A well-formed pagination of a record sequence at page size `p`: every
/// page is the next `p` records (the last may be shorter), and a
/// continuation cursor is present exactly on the non-final pages.
pub open spec fn is_pagination_of<T>(
    pages: Seq<ListRecordsResponse<T>>,
    s: Seq<Record<T>>,
    p: nat,
) -> bool {
    &&& p > 0
    &&& pages.len() == ((s.len() + p - 1) as int / p as int)
    &&& forall|i: int|
        0 <= i < pages.len() ==> (#[trigger] pages[i].records)@ == s.subrange(
            i * p,
            if (i + 1) * p < s.len() {
                (i + 1) * p
            } else {
                s.len() as int
            },
        )
    &&& forall|i: int| 0 <= i < pages.len() ==> (((#[trigger] pages[i].offset) is Some) <==> i
        < pages.len() - 1)
}

/// Pagination completeness: a source of `n` records split into pages of
/// size `p` yields, under cursor-driven fetching, exactly the original
/// records in order, using exactly the ceiling of `n / p` requests.
pub proof fn lemma_pagination_completeness<T>(
    pages: Seq<ListRecordsResponse<T>>,
    s: Seq<Record<T>>,
    p: nat,
)
    requires
        s.len() > 0,
        is_pagination_of(pages, s, p),
    ensures
        pages.len() == ((s.len() + p - 1) as int / p as int),
        flat_prefix(pages, pages.len() as int) == s,
        pages.len() >= 1,
        pages[pages.len() - 1].offset is None,
        forall|j: int| 0 <= j < pages.len() - 1 ==> (#[trigger] pages[j].offset) is Some,
{
    let n = s.len() as int;
    let pi = p as int;
    assert(pages.len() >= 1) by (nonlinear_arith)
        requires
            pages.len() == (n + pi - 1) / pi,
            n > 0,
            pi > 0,
    ;
    assert forall|k: int| 0 <= k <= pages.len() implies flat_prefix(pages, k) =~= s.take(
        if k * pi < n {
            k * pi
        } else {
            n
        },
    ) by {
        lemma_flat_prefix_chunks(pages, s, p, k);
    }
    assert(pages.len() * pi >= n) by (nonlinear_arith)
        requires
            pages.len() == (n + pi - 1) / pi,
            n > 0,
            pi > 0,
    ;
    assert(flat_prefix(pages, pages.len() as int) =~= s.take(n));
    assert(s.take(n) =~= s);
}

/// The first `k` chunks concatenate to the first `k * p` records.
proof fn lemma_flat_prefix_chunks<T>(
    pages: Seq<ListRecordsResponse<T>>,
    s: Seq<Record<T>>,
    p: nat,
    k: int,
)
    requires
        s.len() > 0,
        is_pagination_of(pages, s, p),
        0 <= k <= pages.len(),
    ensures
        flat_prefix(pages, k) =~= s.take(
            if k * p < s.len() {
                k * (p as int)
            } else {
                s.len() as int
            },
        ),
    decreases k,
{
    let n = s.len() as int;
    let pi = p as int;
    if k == 0 {
        assert(k * pi == 0) by (nonlinear_arith)
            requires
                k == 0,
        ;
        assert(flat_prefix(pages, 0) =~= Seq::<Record<T>>::empty());
        assert(s.take(0) =~= Seq::<Record<T>>::empty());
    }
    if k > 0 {
        lemma_flat_prefix_chunks(pages, s, p, k - 1);
        assert((k - 1) * pi == k * pi - pi) by (nonlinear_arith);
        assert((k - 1) * pi >= 0) by (nonlinear_arith)
            requires
                k >= 1,
                pi > 0,
        ;
        assert(k * pi < n ==> (k - 1) * pi < n);
        let prev_end = if (k - 1) * pi < n {
            (k - 1) * pi
        } else {
            n
        };
        let this_end = if k * pi < n {
            k * pi
        } else {
            n
        };
        if (k - 1) * pi >= n {
            assert(k < pages.len() ==> false) by {
                if k < pages.len() {
                    assert(pages.len() * pi - pi >= k * pi - pi) by (nonlinear_arith)
                        requires
                            k <= pages.len() - 1,
                            pi > 0,
                    ;
                    assert((pages.len() - 1) * pi < n) by (nonlinear_arith)
                        requires
                            pages.len() == (n + pi - 1) / pi,
                            n > 0,
                            pi > 0,
                    ;
                    assert((k - 1) * pi <= (pages.len() - 1) * pi) by (nonlinear_arith)
                        requires
                            k <= pages.len(),
                            pi > 0,
                    ;
                }
            }
            assert(k == pages.len());
            assert(false) by {
                assert((pages.len() - 1) * pi < n) by (nonlinear_arith)
                    requires
                        pages.len() == (n + pi - 1) / pi,
                        n > 0,
                        pi > 0,
                ;
            }
        }
        assert(prev_end == (k - 1) * pi);
        assert(pages[k - 1].records@ == s.subrange(prev_end, this_end));
        assert(flat_prefix(pages, k) == flat_prefix(pages, k - 1) + pages[k - 1].records@);
        assert(s.take(prev_end) + s.subrange(prev_end, this_end) =~= s.take(this_end));
    }
}

} // verus!
