use vstd::prelude::*;
use vstd::string::*;
use crate::jsonval::{JsonVal, JsonRep, rep_of, reps_of, entry_reps, lemma_reps_of,
    lemma_entry_reps};
use crate::strutil::{chars_of, string_from_chars, str_eq};

verus! {

/// How one character of a string is written back inside JSON text: a
/// quote and a backslash get a backslash before them, every other
/// character stands as it is.
pub open spec fn esc_char(c: char) -> Seq<char> {
    if c == '"' {
        seq!['\\', '"']
    } else if c == '\\' {
        seq!['\\', '\\']
    } else {
        seq![c]
    }
}

/// The characters of a string written back inside JSON text.
pub open spec fn sp_escape(t: Seq<char>) -> Seq<char>
    decreases t.len(),
{
    if t.len() == 0 {
        Seq::empty()
    } else {
        esc_char(t[0]) + sp_escape(t.subrange(1, t.len() as int))
    }
}

/// The JSON text of a value standing inside an array or an object:
/// strings are quoted and escaped, arrays and objects written with their
/// separators and no spacing, numbers keep their literal text.
pub open spec fn sp_dump(v: JsonRep) -> Seq<char>
    decreases v, 0int,
{
    match v {
        JsonRep::Null => "null"@,
        JsonRep::Bool(b) => if b {
            "true"@
        } else {
            "false"@
        },
        JsonRep::Num(t) => t,
        JsonRep::Str(t) => "\""@ + sp_escape(t) + "\""@,
        JsonRep::Arr(items) => "["@ + sp_dump_list(items) + "]"@,
        JsonRep::Obj(entries) => "{"@ + sp_dump_entries(entries) + "}"@,
    }
}

/// The comma-joined JSON texts of a sequence of values.
pub open spec fn sp_dump_list(items: Seq<JsonRep>) -> Seq<char>
    decreases items, 1int,
{
    if items.len() == 0 {
        Seq::empty()
    } else if items.len() == 1 {
        sp_dump(items[0])
    } else {
        sp_dump(items[0]) + ","@ + sp_dump_list(items.subrange(1, items.len() as int))
    }
}

/// The JSON text of one object entry: the quoted key, a colon, the value.
pub open spec fn sp_entry_text(e: (Seq<char>, JsonRep)) -> Seq<char>
    decreases e, 0int,
{
    "\""@ + sp_escape(e.0) + "\":"@ + sp_dump(e.1)
}

/// The comma-joined JSON texts of a sequence of object entries.
pub open spec fn sp_dump_entries(es: Seq<(Seq<char>, JsonRep)>) -> Seq<char>
    decreases es, 1int,
{
    if es.len() == 0 {
        Seq::empty()
    } else if es.len() == 1 {
        sp_entry_text(es[0])
    } else {
        sp_entry_text(es[0]) + ","@ + sp_dump_entries(es.subrange(1, es.len() as int))
    }
}

/// How a value is shown on a rendered line: a string shows its bare
/// characters, everything else its JSON text.
pub open spec fn sp_text_of(v: JsonRep) -> Seq<char> {
    match v {
        JsonRep::Str(t) => t,
        _ => sp_dump(v),
    }
}

/// The value under `key` among object entries; with the key repeated, the
/// last entry wins.
pub open spec fn sp_lookup(es: Seq<(Seq<char>, JsonRep)>, key: Seq<char>) -> Option<JsonRep>
    decreases es.len(),
{
    if es.len() == 0 {
        None
    } else if es.last().0 == key {
        Some(es.last().1)
    } else {
        sp_lookup(es.drop_last(), key)
    }
}

/// Safe key lookup: the value under `key` if `v` is an object holding it,
/// absent otherwise.
pub open spec fn sp_get(v: JsonRep, key: Seq<char>) -> Option<JsonRep> {
    match v {
        JsonRep::Obj(es) => sp_lookup(es, key),
        _ => None,
    }
}

/// What a field renders as: the stringified value under `key`, or the
/// placeholder `null` where the key is absent or `v` is no object.
pub open spec fn sp_field(v: JsonRep, key: Seq<char>) -> Seq<char> {
    match sp_get(v, key) {
        Some(x) => sp_text_of(x),
        None => "null"@,
    }
}

fn escape(t: &str) -> (r: String)
    ensures
        r@ == sp_escape(t@),
{
    let cs = chars_of(t);
    let mut out: Vec<char> = Vec::new();
    let mut k: usize = 0;
    proof {
        assert(cs@.subrange(0, cs@.len() as int) =~= cs@);
        assert(out@ + sp_escape(cs@) =~= sp_escape(cs@));
    }
    while k < cs.len()
        invariant
            cs@ == t@,
            k <= cs@.len(),
            sp_escape(cs@) =~= out@ + sp_escape(cs@.subrange(k as int, cs@.len() as int)),
        decreases cs@.len() - k,
    {
        let c = cs[k];
        let ghost pre = out@;
        if c == '"' {
            out.push('\\');
            out.push('"');
        } else if c == '\\' {
            out.push('\\');
            out.push('\\');
        } else {
            out.push(c);
        }
        proof {
            let s2 = cs@.subrange(k as int, cs@.len() as int);
            assert(s2[0] == cs@[k as int]);
            assert(out@ =~= pre + esc_char(cs@[k as int]));
            assert(s2.subrange(1, s2.len() as int) =~= cs@.subrange(k + 1, cs@.len() as int));
            assert(sp_escape(cs@) =~= out@ + sp_escape(cs@.subrange(k + 1, cs@.len() as int)));
        }
        k += 1;
    }
    proof {
        assert(cs@.subrange(cs@.len() as int, cs@.len() as int) =~= Seq::<char>::empty());
        assert(out@ =~= sp_escape(cs@));
    }
    string_from_chars(out)
}

/// Writes a value back as the JSON text `sp_dump` describes.
fn dump(v: &JsonVal) -> (r: String)
    ensures
        r@ == sp_dump(rep_of(*v)),
    decreases *v, 0int,
{
    match v {
        JsonVal::Null => "null".to_owned(),
        JsonVal::Bool(b) => if *b {
            "true".to_owned()
        } else {
            "false".to_owned()
        },
        JsonVal::Num(t) => t.clone(),
        JsonVal::Str(t) => {
            let mut out: String = "\"".to_owned();
            let e = escape(t.as_str());
            out.append(e.as_str());
            out.append("\"");
            out
        },
        JsonVal::Arr(items) => {
            let mut out: String = "[".to_owned();
            let inner = dump_list(items, 0);
            out.append(inner.as_str());
            out.append("]");
            proof {
                lemma_reps_of(items@);
                assert(reps_of(items@).subrange(0, reps_of(items@).len() as int) =~= reps_of(
                    items@,
                ));
            }
            out
        },
        JsonVal::Obj(entries) => {
            let mut out: String = "{".to_owned();
            let inner = dump_entries(entries, 0);
            out.append(inner.as_str());
            out.append("}");
            proof {
                lemma_entry_reps(entries@);
                assert(entry_reps(entries@).subrange(0, entry_reps(entries@).len() as int)
                    =~= entry_reps(entries@));
            }
            out
        },
    }
}

fn dump_list(items: &Vec<JsonVal>, k: usize) -> (r: String)
    requires
        k as int <= items@.len(),
    ensures
        r@ == sp_dump_list(reps_of(items@).subrange(k as int, reps_of(items@).len() as int)),
    decreases *items, items@.len() - k,
{
    proof {
        lemma_reps_of(items@);
    }
    let ghost rr = reps_of(items@);
    if k >= items.len() {
        proof {
            assert(rr.subrange(k as int, rr.len() as int) =~= Seq::<JsonRep>::empty());
        }
        String::new()
    } else if k == items.len() - 1 {
        let d = dump(&items[k]);
        proof {
            let s2 = rr.subrange(k as int, rr.len() as int);
            assert(s2[0] == rr[k as int]);
        }
        d
    } else {
        let mut out = dump(&items[k]);
        out.append(",");
        let rest = dump_list(items, k + 1);
        out.append(rest.as_str());
        proof {
            let s2 = rr.subrange(k as int, rr.len() as int);
            assert(s2[0] == rr[k as int]);
            assert(s2.subrange(1, s2.len() as int) =~= rr.subrange(k + 1, rr.len() as int));
        }
        out
    }
}

fn dump_entries(entries: &Vec<(String, JsonVal)>, k: usize) -> (r: String)
    requires
        k as int <= entries@.len(),
    ensures
        r@ == sp_dump_entries(
            entry_reps(entries@).subrange(k as int, entry_reps(entries@).len() as int),
        ),
    decreases *entries, entries@.len() - k,
{
    proof {
        lemma_entry_reps(entries@);
    }
    let ghost er = entry_reps(entries@);
    if k >= entries.len() {
        proof {
            assert(er.subrange(k as int, er.len() as int) =~= Seq::<(Seq<char>, JsonRep)>::empty());
        }
        String::new()
    } else {
        let e = &entries[k];
        let mut out: String = "\"".to_owned();
        let ek = escape(e.0.as_str());
        out.append(ek.as_str());
        out.append("\":");
        let dv = dump(&e.1);
        out.append(dv.as_str());
        proof {
            let s2 = er.subrange(k as int, er.len() as int);
            assert(s2[0] == er[k as int]);
            assert(out@ =~= sp_entry_text(er[k as int]));
        }
        if k == entries.len() - 1 {
            out
        } else {
            out.append(",");
            let rest = dump_entries(entries, k + 1);
            out.append(rest.as_str());
            proof {
                let s2 = er.subrange(k as int, er.len() as int);
                assert(s2[0] == er[k as int]);
                assert(s2.subrange(1, s2.len() as int) =~= er.subrange(k + 1, er.len() as int));
            }
            out
        }
    }
}

/// Shows one value as it stands on a rendered line.
pub fn text_of(v: &JsonVal) -> (r: String)
    ensures
        r@ == sp_text_of(rep_of(*v)),
{
    match v {
        JsonVal::Str(t) => t.clone(),
        _ => dump(v),
    }
}

/// Renders the field of `v` under `key`, as `sp_field` describes.
pub fn get_field(v: &JsonVal, key: &str) -> (r: String)
    ensures
        r@ == sp_field(rep_of(*v), key@),
{
    match v {
        JsonVal::Obj(entries) => {
            proof {
                lemma_entry_reps(entries@);
                assert(rep_of(*v) == JsonRep::Obj(entry_reps(entries@)));
            }
            let ghost er = entry_reps(entries@);
            let mut k = entries.len();
            proof {
                assert(er.subrange(0, er.len() as int) =~= er);
            }
            while k > 0
                invariant
                    er == entry_reps(entries@),
                    rep_of(*v) == JsonRep::Obj(er),
                    er.len() == entries@.len(),
                    forall|j: int|
                        0 <= j < entries@.len() ==> er[j] == (
                            entries@[j].0@,
                            rep_of(entries@[j].1),
                        ),
                    k <= entries@.len(),
                    sp_lookup(er, key@) == sp_lookup(er.subrange(0, k as int), key@),
                decreases k,
            {
                k -= 1;
                let e = &entries[k];
                proof {
                    let s2 = er.subrange(0, k + 1);
                    assert(s2.last() == er[k as int]);
                    assert(s2.drop_last() =~= er.subrange(0, k as int));
                }
                if str_eq(e.0.as_str(), key) {
                    proof {
                        let s2 = er.subrange(0, k + 1);
                        assert(s2.last() == er[k as int]);
                        assert(s2.last().0 == key@);
                        assert(sp_lookup(s2, key@) == Some(er[k as int].1));
                        assert(sp_lookup(er, key@) == Some(er[k as int].1));
                    }
                    return text_of(&e.1);
                }
            }
            proof {
                assert(er.subrange(0, 0) =~= Seq::<(Seq<char>, JsonRep)>::empty());
            }
            "null".to_owned()
        },
        _ => "null".to_owned(),
    }
}

/// One rendered giveaway entry: the three fields shown on its line.
pub struct Entry {
    pub title: String,
    pub worth: String,
    pub url: String,
}

/// The three rendered fields of one value.
pub open spec fn sp_row(v: JsonRep) -> (Seq<char>, Seq<char>, Seq<char>) {
    (sp_field(v, "title"@), sp_field(v, "worth"@), sp_field(v, "gamerpower_url"@))
}

/// The rows of a sequence of values: null elements are skipped, every
/// other element gives one row.
pub open spec fn sp_rows_list(items: Seq<JsonRep>) -> Seq<(Seq<char>, Seq<char>, Seq<char>)>
    decreases items.len(),
{
    if items.len() == 0 {
        Seq::empty()
    } else {
        let rest = sp_rows_list(items.subrange(1, items.len() as int));
        if items[0] is Null {
            rest
        } else {
            seq![sp_row(items[0])] + rest
        }
    }
}

/// The rows a parsed response renders as: every non-null element of an
/// array, or the value itself when it is no array.
pub open spec fn sp_rows(v: JsonRep) -> Seq<(Seq<char>, Seq<char>, Seq<char>)> {
    match v {
        JsonRep::Arr(items) => sp_rows_list(items),
        _ => seq![sp_row(v)],
    }
}

/// The field views of a sequence of entries.
pub open spec fn row_views(es: Seq<Entry>) -> Seq<(Seq<char>, Seq<char>, Seq<char>)> {
    Seq::new(es.len(), |i: int| (es[i].title@, es[i].worth@, es[i].url@))
}

fn row_of(v: &JsonVal) -> (e: Entry)
    ensures
        (e.title@, e.worth@, e.url@) == sp_row(rep_of(*v)),
{
    Entry {
        title: get_field(v, "title"),
        worth: get_field(v, "worth"),
        url: get_field(v, "gamerpower_url"),
    }
}

/// The entries a parsed response renders as, as `sp_rows` describes.
pub fn entries_of(v: &JsonVal) -> (r: Vec<Entry>)
    ensures
        row_views(r@) == sp_rows(rep_of(*v)),
{
    match v {
        JsonVal::Arr(items) => {
            proof {
                lemma_reps_of(items@);
            }
            let ghost rr = reps_of(items@);
            let mut out: Vec<Entry> = Vec::new();
            let mut k: usize = 0;
            proof {
                assert(rr.subrange(0, rr.len() as int) =~= rr);
            }
            while k < items.len()
                invariant
                    rr == reps_of(items@),
                    rr.len() == items@.len(),
                    forall|j: int| 0 <= j < items@.len() ==> rr[j] == rep_of(items@[j]),
                    k <= items@.len(),
                    sp_rows_list(rr) =~= row_views(out@) + sp_rows_list(
                        rr.subrange(k as int, rr.len() as int),
                    ),
                decreases items@.len() - k,
            {
                let e = &items[k];
                let ghost pre = out@;
                let isnull = match e {
                    JsonVal::Null => true,
                    _ => false,
                };
                if !isnull {
                    out.push(row_of(e));
                }
                proof {
                    let s2 = rr.subrange(k as int, rr.len() as int);
                    assert(s2[0] == rr[k as int]);
                    assert(s2.subrange(1, s2.len() as int) =~= rr.subrange(
                        k + 1,
                        rr.len() as int,
                    ));
                    if !isnull {
                        assert(row_views(out@) =~= row_views(pre) + seq![sp_row(rr[k as int])]);
                    }
                    assert(sp_rows_list(rr) =~= row_views(out@) + sp_rows_list(
                        rr.subrange(k + 1, rr.len() as int),
                    ));
                }
                k += 1;
            }
            proof {
                assert(rr.subrange(items@.len() as int, rr.len() as int)
                    =~= Seq::<JsonRep>::empty());
                assert(row_views(out@) =~= sp_rows_list(rr));
            }
            out
        },
        _ => {
            let mut out: Vec<Entry> = Vec::new();
            out.push(row_of(v));
            proof {
                assert(row_views(out@) =~= seq![sp_row(rep_of(*v))]);
            }
            out
        },
    }
}

/// One output line: the three fields joined with a comma and a space.
pub open spec fn sp_line(row: (Seq<char>, Seq<char>, Seq<char>)) -> Seq<char> {
    row.0 + ", "@ + row.1 + ", "@ + row.2
}

impl Entry {
    /// This entry's output line, as `sp_line` describes.
    pub fn format_line(&self) -> (r: String)
        ensures
            r@ == sp_line((self.title@, self.worth@, self.url@)),
    {
        let mut out = self.title.clone();
        out.append(", ");
        out.append(self.worth.as_str());
        out.append(", ");
        out.append(self.url.as_str());
        out
    }
}

/// The views of a sequence of strings.
pub open spec fn views_of(ss: Seq<String>) -> Seq<Seq<char>> {
    Seq::new(ss.len(), |i: int| ss[i]@)
}

/// The output lines of a parsed response: one per row of `sp_rows`.
pub open spec fn sp_lines(v: JsonRep) -> Seq<Seq<char>> {
    Seq::new(sp_rows(v).len(), |i: int| sp_line(sp_rows(v)[i]))
}

/// Renders a parsed response as its output lines, as `sp_lines`
/// describes: one line per non-null element, null elements skipped.
pub fn render_lines(v: &JsonVal) -> (r: Vec<String>)
    ensures
        views_of(r@) == sp_lines(rep_of(*v)),
{
    let es = entries_of(v);
    let mut out: Vec<String> = Vec::new();
    let mut k: usize = 0;
    while k < es.len()
        invariant
            row_views(es@) == sp_rows(rep_of(*v)),
            k <= es@.len(),
            out@.len() == k,
            forall|j: int| 0 <= j < k ==> out@[j]@ == sp_line(row_views(es@)[j]),
        decreases es@.len() - k,
    {
        let e = &es[k];
        let line = e.format_line();
        out.push(line);
        k += 1;
    }
    proof {
        assert(views_of(out@) =~= sp_lines(rep_of(*v)));
    }
    out
}

} // verus!
