use vstd::prelude::*;
use vstd::string::*;
use crate::strutil::{lower_of, contains_sub, to_lower, chars_of, contains_chars};

verus! {

/// The set of optional filters extracted from the command-line tokens.
///
/// Each filter is either absent or a string copied verbatim from the
/// suffix of a token after the token's key prefix.
#[derive(Debug)]
pub struct Query {
    pub id: Option<String>,
    pub platform: Option<String>,
    pub giveaway_type: Option<String>,
    pub sort_by: Option<String>,
}

/// Ghost mirror of a `Query`: each filter as an optional character sequence.
pub struct QueryRep {
    pub id: Option<Seq<char>>,
    pub platform: Option<Seq<char>>,
    pub giveaway_type: Option<Seq<char>>,
    pub sort_by: Option<Seq<char>>,
}

/// The abstraction of a concrete `Query` value.
pub open spec fn rep_of_query(q: Query) -> QueryRep {
    QueryRep {
        id: match q.id {
            Some(s) => Some(s@),
            None => None,
        },
        platform: match q.platform {
            Some(s) => Some(s@),
            None => None,
        },
        giveaway_type: match q.giveaway_type {
            Some(s) => Some(s@),
            None => None,
        },
        sort_by: match q.sort_by {
            Some(s) => Some(s@),
            None => None,
        },
    }
}

pub open spec fn key_id() -> Seq<char> {
    "id="@
}

pub open spec fn key_platform() -> Seq<char> {
    "platform="@
}

pub open spec fn key_type() -> Seq<char> {
    "type="@
}

pub open spec fn key_sort() -> Seq<char> {
    "sort-by="@
}

/// The filter set with every filter absent.
pub open spec fn sp_empty() -> QueryRep {
    QueryRep { id: None, platform: None, giveaway_type: None, sort_by: None }
}

/// How one token updates the filter set.
///
/// The token's lower-cased form is checked for the four keys in a fixed
/// priority order; the first key found classifies the token, and the
/// filter is set to the token's original-case suffix after the key's
/// length in characters. A token too short to carry such a suffix, or one
/// containing no key, leaves the filter set unchanged.
pub open spec fn sp_step(q: QueryRep, tok: Seq<char>) -> QueryRep {
    let lt = lower_of(tok);
    if contains_sub(lt, key_id()) {
        if tok.len() >= 3 {
            QueryRep { id: Some(tok.subrange(3, tok.len() as int)), ..q }
        } else {
            q
        }
    } else if contains_sub(lt, key_platform()) {
        if tok.len() >= 9 {
            QueryRep { platform: Some(tok.subrange(9, tok.len() as int)), ..q }
        } else {
            q
        }
    } else if contains_sub(lt, key_type()) {
        if tok.len() >= 5 {
            QueryRep { giveaway_type: Some(tok.subrange(5, tok.len() as int)), ..q }
        } else {
            q
        }
    } else if contains_sub(lt, key_sort()) {
        if tok.len() >= 8 {
            QueryRep { sort_by: Some(tok.subrange(8, tok.len() as int)), ..q }
        } else {
            q
        }
    } else {
        q
    }
}

/// The filter set built from a token sequence: the tokens are folded in
/// order, so for each filter the last token that sets it wins.
pub open spec fn sp_query(args: Seq<Seq<char>>) -> QueryRep
    decreases args.len(),
{
    if args.len() == 0 {
        sp_empty()
    } else {
        sp_step(sp_query(args.drop_last()), args.last())
    }
}

/// A query that sets the id filter and no other.
pub open spec fn sp_is_id_query(q: QueryRep) -> bool {
    q.id is Some && q.platform is None && q.giveaway_type is None && q.sort_by is None
}

/// The `key=value` pairs of the present filters, in the fixed emission
/// order: id, platform, type, sort-by.
pub open spec fn pair_seqs(q: QueryRep) -> Seq<Seq<char>> {
    let a: Seq<Seq<char>> = if q.id is Some {
        seq![key_id() + q.id->0]
    } else {
        seq![]
    };
    let b: Seq<Seq<char>> = if q.platform is Some {
        seq![key_platform() + q.platform->0]
    } else {
        seq![]
    };
    let c: Seq<Seq<char>> = if q.giveaway_type is Some {
        seq![key_type() + q.giveaway_type->0]
    } else {
        seq![]
    };
    let d: Seq<Seq<char>> = if q.sort_by is Some {
        seq![key_sort() + q.sort_by->0]
    } else {
        seq![]
    };
    a + b + c + d
}

/// The pieces joined with `&` between them, and nothing at the ends.
pub open spec fn amp_join(ps: Seq<Seq<char>>) -> Seq<char>
    decreases ps.len(),
{
    if ps.len() == 0 {
        Seq::empty()
    } else if ps.len() == 1 {
        ps[0]
    } else {
        ps[0] + "&"@ + amp_join(ps.drop_first())
    }
}

/// The query string: `?` followed by the `&`-joined pairs of the present
/// filters. With no filter present it is exactly `?`.
pub open spec fn sp_query_string(q: QueryRep) -> Seq<char> {
    "?"@ + amp_join(pair_seqs(q))
}

/// The fixed endpoint naming the giveaway-listing collection.
pub open spec fn base_url() -> Seq<char> {
    "https://gamerpower.com/api/giveaway"@
}

/// The full request URL: the base endpoint, pluralized unless the query
/// asks for one giveaway by id alone, followed by the query string.
pub open spec fn sp_url(q: QueryRep) -> Seq<char> {
    if sp_is_id_query(q) {
        base_url() + sp_query_string(q)
    } else {
        base_url() + "s"@ + sp_query_string(q)
    }
}

impl Query {
    /// The query with no filter set.
    pub fn empty() -> (q: Query)
        ensures
            rep_of_query(q) == sp_empty(),
    {
        Query { id: None, platform: None, giveaway_type: None, sort_by: None }
    }

    /// Builds the filter set from the raw command-line tokens, folding
    /// them in order as `sp_query` describes.
    pub fn new(args: &[String]) -> (q: Query)
        ensures
            rep_of_query(q) == sp_query(args.deep_view()),
    {
        let ghost gargs = args.deep_view();
        let key_id_cs = chars_of("id=");
        let key_platform_cs = chars_of("platform=");
        let key_type_cs = chars_of("type=");
        let key_sort_cs = chars_of("sort-by=");
        let mut q = Query::empty();
        let mut k: usize = 0;
        assert(gargs.take(0) =~= Seq::<Seq<char>>::empty());
        while k < args.len()
            invariant
                gargs == args.deep_view(),
                k <= args@.len(),
                key_id_cs@ == key_id(),
                key_platform_cs@ == key_platform(),
                key_type_cs@ == key_type(),
                key_sort_cs@ == key_sort(),
                rep_of_query(q) == sp_query(gargs.take(k as int)),
            decreases args@.len() - k,
        {
            let tok: &String = &args[k];
            let lowered = to_lower(tok.as_str());
            let lowered_cs = chars_of(lowered.as_str());
            let n = tok.as_str().unicode_len();
            assert(gargs[k as int] == tok@);
            if contains_chars(&lowered_cs, &key_id_cs) {
                if n >= 3 {
                    q.id = Some(tok.as_str().substring_char(3, n).to_owned());
                }
            } else if contains_chars(&lowered_cs, &key_platform_cs) {
                if n >= 9 {
                    q.platform = Some(tok.as_str().substring_char(9, n).to_owned());
                }
            } else if contains_chars(&lowered_cs, &key_type_cs) {
                if n >= 5 {
                    q.giveaway_type = Some(tok.as_str().substring_char(5, n).to_owned());
                }
            } else if contains_chars(&lowered_cs, &key_sort_cs) {
                if n >= 8 {
                    q.sort_by = Some(tok.as_str().substring_char(8, n).to_owned());
                }
            }
            proof {
                assert(gargs.take(k + 1).drop_last() =~= gargs.take(k as int));
                assert(gargs.take(k + 1).last() == gargs[k as int]);
            }
            k += 1;
        }
        proof {
            assert(gargs.take(args@.len() as int) =~= gargs);
        }
        q
    }

    /// Whether the query asks for one giveaway by id and nothing else.
    pub fn is_id_query(&self) -> (r: bool)
        ensures
            r == sp_is_id_query(rep_of_query(*self)),
    {
        self.id.is_some() && self.platform.is_none() && self.sort_by.is_none()
            && self.giveaway_type.is_none()
    }

    /// Serializes the present filters as a query string, `?` first, pairs
    /// joined with `&`, in the fixed order id, platform, type, sort-by.
    /// Values are copied verbatim, with no percent-encoding.
    pub fn to_query_string(&self) -> (r: String)
        ensures
            r@ == sp_query_string(rep_of_query(*self)),
    {
        let mut out: String = "?".to_owned();
        let mut first = true;
        if let Some(id) = &self.id {
            out.append("id=");
            out.append(id.as_str());
            first = false;
        }
        if let Some(platform) = &self.platform {
            if !first {
                out.append("&");
            }
            out.append("platform=");
            out.append(platform.as_str());
            first = false;
        }
        if let Some(giveaway_type) = &self.giveaway_type {
            if !first {
                out.append("&");
            }
            out.append("type=");
            out.append(giveaway_type.as_str());
            first = false;
        }
        if let Some(sort_by) = &self.sort_by {
            if !first {
                out.append("&");
            }
            out.append("sort-by=");
            out.append(sort_by.as_str());
        }
        proof {
            reveal_with_fuel(amp_join, 5);
            assert(out@ =~= sp_query_string(rep_of_query(*self)));
        }
        out
    }

    /// The full request URL for this filter set, as `sp_url` describes.
    pub fn to_parameterized_url(&self) -> (r: String)
        ensures
            r@ == sp_url(rep_of_query(*self)),
    {
        let mut out: String = "https://gamerpower.com/api/giveaway".to_owned();
        if !self.is_id_query() {
            out.append("s");
        }
        let qs = self.to_query_string();
        out.append(qs.as_str());
        proof {
            assert(out@ =~= sp_url(rep_of_query(*self)));
        }
        out
    }
}

/// The filter set is a pure function of the token sequence: two filter
/// sets built from the same tokens are field-wise equal.
pub proof fn lemma_query_builder_idempotent(r1: QueryRep, r2: QueryRep, args: Seq<Seq<char>>)
    ensures
        (r1 == sp_query(args) && r2 == sp_query(args)) ==> (r1.id == r2.id && r1.platform
            == r2.platform && r1.giveaway_type == r2.giveaway_type && r1.sort_by == r2.sort_by),
{
}

/// A token whose lower-cased form contains `id=` sets the id filter to the
/// token's original-case suffix after its third character, provided the
/// token has at least three characters; the last such token wins.
pub proof fn lemma_last_id_token_wins(args: Seq<Seq<char>>, k: int)
    ensures
        (0 <= k < args.len() && contains_sub(lower_of(args[k]), key_id()) && args[k].len() >= 3
            && (forall|j: int|
            k < j < args.len() ==> !(contains_sub(lower_of(args[j]), key_id()) && args[j].len()
                >= 3))) ==> sp_query(args).id == Some(
            args[k].subrange(3, args[k].len() as int),
        ),
    decreases args.len(),
{
    if 0 <= k < args.len() && contains_sub(lower_of(args[k]), key_id()) && args[k].len() >= 3 && (
    forall|j: int|
        k < j < args.len() ==> !(contains_sub(lower_of(args[j]), key_id()) && args[j].len()
            >= 3)) {
        let pre = args.drop_last();
        if k == args.len() - 1 {
            assert(sp_query(args).id == Some(args[k].subrange(3, args[k].len() as int)));
        } else {
            assert(forall|j: int|
                k < j < pre.len() ==> !(contains_sub(lower_of(pre[j]), key_id()) && pre[j].len()
                    >= 3));
            lemma_last_id_token_wins(pre, k);
            assert(sp_query(pre).id == Some(pre[k].subrange(3, pre[k].len() as int)));
            let last = args.last();
            assert(!(contains_sub(lower_of(last), key_id()) && last.len() >= 3));
            assert(sp_query(args).id == sp_query(pre).id);
        }
    }
}

} // verus!
