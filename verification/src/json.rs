//! A JSON value held as plain data, with the `--select` / `--compact`
//! projections that every command result passes through.
//!
//! Objects keep their entries in key order, one entry per key, the way a
//! sorted map would: inserting an existing key replaces its value in place,
//! inserting a new key puts it before the first larger key.
use vstd::prelude::*;
use crate::text::{chars_of, decimal, is_digit, is_digit_exec, push_char, push_decimal};

verus! {

broadcast use vstd::seq_lib::group_seq_properties;

/// A JSON document.
#[derive(Debug, PartialEq, Eq)]
pub enum Json {
    Null,
    Bool(bool),
    /// A number in its JSON text form (`42`, `-7`, `8.0`). The text is
    /// meant to satisfy [`is_number_text`]: [`Json::number`] checks it, and
    /// `from_u64` / `from_i64` always give such text.
    Number(String),
    Str(String),
    Array(Vec<Json>),
    Object(Vec<(String, Json)>),
}

/// The mathematical model of a [`Json`] value.
pub ghost enum JsonV {
    Null,
    Bool(bool),
    Number(Seq<char>),
    Str(Seq<char>),
    Array(Seq<JsonV>),
    Object(Seq<(Seq<char>, JsonV)>),
}

/// The model of one value.
pub open spec fn jv(j: Json) -> JsonV
    decreases j,
{
    match j {
        Json::Null => JsonV::Null,
        Json::Bool(b) => JsonV::Bool(b),
        Json::Number(s) => JsonV::Number(s@),
        Json::Str(s) => JsonV::Str(s@),
        Json::Array(items) => JsonV::Array(jvs(items@)),
        Json::Object(entries) => JsonV::Object(jes(entries@)),
    }
}

/// The models of a sequence of values.
pub open spec fn jvs(items: Seq<Json>) -> Seq<JsonV>
    decreases items,
{
    if items.len() == 0 {
        Seq::empty()
    } else {
        jvs(items.drop_last()).push(jv(items.last()))
    }
}

/// The models of a sequence of object entries.
pub open spec fn jes(entries: Seq<(String, Json)>) -> Seq<(Seq<char>, JsonV)>
    decreases entries,
{
    if entries.len() == 0 {
        Seq::empty()
    } else {
        jes(entries.drop_last()).push((entries.last().0@, jv(entries.last().1)))
    }
}

impl View for Json {
    type V = JsonV;

    open spec fn view(&self) -> JsonV {
        jv(*self)
    }
}

pub proof fn lemma_jvs(items: Seq<Json>)
    ensures
        jvs(items).len() == items.len(),
        forall|i: int| 0 <= i < items.len() ==> #[trigger] jvs(items)[i] == jv(items[i]),
    decreases items.len(),
{
    if items.len() > 0 {
        lemma_jvs(items.drop_last());
    }
}

pub proof fn lemma_jes(entries: Seq<(String, Json)>)
    ensures
        jes(entries).len() == entries.len(),
        forall|i: int|
            0 <= i < entries.len() ==> #[trigger] jes(entries)[i] == (entries[i].0@, jv(entries[i].1)),
    decreases entries.len(),
{
    if entries.len() > 0 {
        lemma_jes(entries.drop_last());
    }
}

/// `jvs` of a sequence with one more element.
pub proof fn lemma_jvs_push(items: Seq<Json>, j: Json)
    ensures
        jvs(items.push(j)) == jvs(items).push(jv(j)),
{
    assert(items.push(j).drop_last() =~= items);
}

pub proof fn lemma_jes_push(entries: Seq<(String, Json)>, e: (String, Json))
    ensures
        jes(entries.push(e)) == jes(entries).push((e.0@, jv(e.1))),
{
    assert(entries.push(e).drop_last() =~= entries);
}

/// Two sequences with equal element models have equal models.
pub proof fn lemma_jes_ext(a: Seq<(String, Json)>, b: Seq<(Seq<char>, JsonV)>)
    requires
        a.len() == b.len(),
        forall|i: int| 0 <= i < a.len() ==> (a[i].0@, jv(a[i].1)) == b[i],
    ensures
        jes(a) == b,
{
    lemma_jes(a);
    assert(jes(a) =~= b);
}

pub proof fn lemma_jvs_ext(a: Seq<Json>, b: Seq<JsonV>)
    requires
        a.len() == b.len(),
        forall|i: int| 0 <= i < a.len() ==> jv(a[i]) == b[i],
    ensures
        jvs(a) == b,
{
    lemma_jvs(a);
    assert(jvs(a) =~= b);
}

// ---------------------------------------------------------------------------
// Keys and object entries
// ---------------------------------------------------------------------------

/// Lexicographic order of keys by character (the byte order of their UTF-8).
pub open spec fn key_lt(a: Seq<char>, b: Seq<char>) -> bool
    decreases a.len(),
{
    if a.len() == 0 {
        b.len() > 0
    } else if b.len() == 0 {
        false
    } else if a[0] != b[0] {
        (a[0] as u32) < (b[0] as u32)
    } else {
        key_lt(a.drop_first(), b.drop_first())
    }
}

/// The value under key `k`.
pub open spec fn obj_get<V>(e: Seq<(Seq<char>, V)>, k: Seq<char>) -> Option<V>
    decreases e.len(),
{
    if e.len() == 0 {
        None
    } else if e[0].0 == k {
        Some(e[0].1)
    } else {
        obj_get(e.drop_first(), k)
    }
}

/// `e` with `k` set to `v`: replaced where `k` is, else placed before the
/// first larger key.
pub open spec fn obj_insert<V>(e: Seq<(Seq<char>, V)>, k: Seq<char>, v: V) -> Seq<(Seq<char>, V)>
    decreases e.len(),
{
    if e.len() == 0 {
        seq![(k, v)]
    } else if e[0].0 == k {
        e.update(0, (k, v))
    } else if key_lt(k, e[0].0) {
        seq![(k, v)] + e
    } else {
        seq![e[0]] + obj_insert(e.drop_first(), k, v)
    }
}

/// An object built by inserting `entries` one after the other.
pub open spec fn obj_from<V>(entries: Seq<(Seq<char>, V)>) -> Seq<(Seq<char>, V)>
    decreases entries.len(),
{
    if entries.len() == 0 {
        Seq::empty()
    } else {
        obj_insert(obj_from(entries.drop_last()), entries.last().0, entries.last().1)
    }
}

/// The keys of an object, in order.
pub open spec fn obj_keys<V>(e: Seq<(Seq<char>, V)>) -> Seq<Seq<char>> {
    e.map_values(|p: (Seq<char>, V)| p.0)
}

/// Compares two keys.
pub fn key_less(a: &str, b: &str) -> (r: bool)
    ensures
        r == key_lt(a@, b@),
{
    let x = chars_of(a);
    let y = chars_of(b);
    let mut i: usize = 0;
    while i < x.len() && i < y.len()
        invariant
            x@ == a@,
            y@ == b@,
            i <= x.len(),
            i <= y.len(),
            key_lt(a@, b@) == key_lt(a@.skip(i as int), b@.skip(i as int)),
        decreases x.len() - i,
    {
        proof {
            assert(a@.skip(i as int).drop_first() =~= a@.skip(i + 1));
            assert(b@.skip(i as int).drop_first() =~= b@.skip(i + 1));
        }
        if x[i] != y[i] {
            return (x[i] as u32) < (y[i] as u32);
        }
        i = i + 1;
    }
    i < y.len()
}

/// Index of the entry with key `k`.
pub fn obj_find(e: &Vec<(String, Json)>, k: &str) -> (r: Option<usize>)
    ensures
        match r {
            Some(i) => i < e@.len() && e@[i as int].0@ == k@ && obj_get(jes(e@), k@) == Some(
                jv(e@[i as int].1),
            ),
            None => obj_get(jes(e@), k@) is None,
        },
{
    let ghost m = jes(e@);
    proof {
        lemma_jes(e@);
    }
    let mut i: usize = 0;
    while i < e.len()
        invariant
            m == jes(e@),
            m.len() == e@.len(),
            forall|q: int| 0 <= q < e@.len() ==> #[trigger] m[q] == (e@[q].0@, jv(e@[q].1)),
            i <= e.len(),
            obj_get(m, k@) == obj_get(m.skip(i as int), k@),
        decreases e.len() - i,
    {
        proof {
            assert(m.skip(i as int).drop_first() =~= m.skip(i + 1));
            assert(m.skip(i as int)[0] == m[i as int]);
        }
        if crate::text::str_eq(e[i].0.as_str(), k) {
            return Some(i);
        }
        i = i + 1;
    }
    None
}

/// Sets key `k` to `v`.
pub fn obj_insert_exec(e: &mut Vec<(String, Json)>, k: String, v: Json)
    ensures
        jes(final(e)@) == obj_insert(jes(old(e)@), k@, jv(v)),
{
    let ghost m = jes(e@);
    let ghost kv = k@;
    let ghost vv = jv(v);
    proof {
        lemma_jes(e@);
    }
    let mut i: usize = 0;
    while i < e.len()
        invariant
            *e == *old(e),
            m == jes(old(e)@),
            m.len() == e@.len(),
            forall|q: int| 0 <= q < e@.len() ==> #[trigger] m[q] == (e@[q].0@, jv(e@[q].1)),
            kv == k@,
            vv == jv(v),
            i <= e.len(),
            obj_insert(m, kv, vv) == m.take(i as int) + obj_insert(m.skip(i as int), kv, vv),
        decreases e.len() - i,
    {
        proof {
            assert(m.skip(i as int).drop_first() =~= m.skip(i + 1));
            assert(m.skip(i as int)[0] == m[i as int]);
        }
        if crate::text::str_eq(e[i].0.as_str(), k.as_str()) {
            let ghost before = e@;
            e.set(i, (k, v));
            proof {
                assert(m.take(i as int) + m.skip(i as int).update(0, (kv, vv)) =~= m.update(
                    i as int,
                    (kv, vv),
                ));
                lemma_jes_ext(e@, m.update(i as int, (kv, vv)));
            }
            return;
        }
        if key_less(k.as_str(), e[i].0.as_str()) {
            let ghost before = e@;
            e.insert(i, (k, v));
            proof {
                lemma_jes_ext(e@, m.take(i as int) + (seq![(kv, vv)] + m.skip(i as int)));
            }
            return;
        }
        proof {
            assert(m.take(i as int) + (seq![m[i as int]] + obj_insert(m.skip(i + 1), kv, vv))
                =~= m.take(i + 1) + obj_insert(m.skip(i + 1), kv, vv));
        }
        i = i + 1;
    }
    proof {
        lemma_jes_push(e@, (k, v));
        assert(m.take(i as int) =~= m);
        assert(m.skip(i as int) =~= Seq::<(Seq<char>, JsonV)>::empty());
    }
    e.push((k, v));
}

impl Json {
    /// A copy of this value.
    pub fn deep_clone(&self) -> (r: Json)
        ensures
            r@ == self@,
        decreases self,
    {
        match self {
            Json::Null => Json::Null,
            Json::Bool(b) => Json::Bool(*b),
            Json::Number(s) => Json::Number(s.clone()),
            Json::Str(s) => Json::Str(s.clone()),
            Json::Array(items) => {
                let mut out: Vec<Json> = Vec::new();
                let mut i: usize = 0;
                while i < items.len()
                    invariant
                        *self == Json::Array(*items),
                        i <= items.len(),
                        jvs(out@) == jvs(items@.take(i as int)),
                    decreases items.len() - i,
                {
                    proof {
                        let ghost whole = Json::Array(*items);
                        assert(whole->Array_0 == *items);
                        assert(decreases_to!(whole => *items));
                        assert(decreases_to!(*items => items@));
                        assert(decreases_to!(items@ => items@[i as int]));
                    }
                    let c = items[i].deep_clone();
                    proof {
                        lemma_jvs_push(out@, c);
                        assert(items@.take(i + 1).drop_last() =~= items@.take(i as int));
                    }
                    out.push(c);
                    i = i + 1;
                }
                proof {
                    assert(items@.take(i as int) =~= items@);
                }
                Json::Array(out)
            },
            Json::Object(entries) => {
                let mut out: Vec<(String, Json)> = Vec::new();
                let mut i: usize = 0;
                while i < entries.len()
                    invariant
                        *self == Json::Object(*entries),
                        i <= entries.len(),
                        jes(out@) == jes(entries@.take(i as int)),
                    decreases entries.len() - i,
                {
                    proof {
                        let ghost whole = Json::Object(*entries);
                        assert(whole->Object_0 == *entries);
                        assert(decreases_to!(whole => *entries));
                        assert(decreases_to!(*entries => entries@));
                        assert(decreases_to!(entries@ => entries@[i as int]));
                        assert(decreases_to!(entries@[i as int] => entries@[i as int].1));
                    }
                    let c = entries[i].1.deep_clone();
                    let k = entries[i].0.clone();
                    proof {
                        lemma_jes_push(out@, (k, c));
                        assert(entries@.take(i + 1).drop_last() =~= entries@.take(i as int));
                    }
                    out.push((k, c));
                    i = i + 1;
                }
                proof {
                    assert(entries@.take(i as int) =~= entries@);
                }
                Json::Object(out)
            },
        }
    }
}

// ---------------------------------------------------------------------------
// --select
// ---------------------------------------------------------------------------

/// Splits `s` at `.` characters: the segments seen so far and the segment
/// being read.
pub open spec fn dot_scan(s: Seq<char>) -> (Seq<Seq<char>>, Seq<char>)
    decreases s.len(),
{
    if s.len() == 0 {
        (Seq::empty(), Seq::empty())
    } else {
        let (done, cur) = dot_scan(s.drop_last());
        if s.last() == '.' {
            (if cur.len() > 0 { done.push(cur) } else { done }, Seq::empty())
        } else {
            (done, cur.push(s.last()))
        }
    }
}

/// The non-empty `.`-separated segments of a field path (`"a.b"` → `a`, `b`).
pub open spec fn dot_path(s: Seq<char>) -> Seq<Seq<char>> {
    let (done, cur) = dot_scan(s);
    if cur.len() > 0 {
        done.push(cur)
    } else {
        done
    }
}

/// `t` lengthened to `n` elements with empty objects.
pub open spec fn pad_objects(t: Seq<JsonV>, n: nat) -> Seq<JsonV> {
    if t.len() < n {
        t + Seq::new((n - t.len()) as nat, |_i: int| JsonV::Object(Seq::empty()))
    } else {
        t
    }
}

/// Copies the leaf at `path` in the object `src` into the object `out`,
/// rebuilding the objects along the way; an array met on the way is
/// descended element by element. A missing key, or a scalar before the end
/// of the path, copies nothing.
pub open spec fn insert_path_model(
    src: Seq<(Seq<char>, JsonV)>,
    path: Seq<Seq<char>>,
    out: Seq<(Seq<char>, JsonV)>,
) -> Seq<(Seq<char>, JsonV)>
    decreases 2 * path.len(), 0nat,
{
    if path.len() == 0 {
        out
    } else {
        let head = path[0];
        let rest = path.drop_first();
        match obj_get(src, head) {
            None => out,
            Some(found) => if rest.len() == 0 {
                obj_insert(out, head, found)
            } else {
                match found {
                    JsonV::Object(inner) => match obj_get(out, head) {
                        None => obj_insert(
                            out,
                            head,
                            JsonV::Object(insert_path_model(inner, rest, Seq::empty())),
                        ),
                        Some(JsonV::Object(target)) => obj_insert(
                            out,
                            head,
                            JsonV::Object(insert_path_model(inner, rest, target)),
                        ),
                        Some(_) => out,
                    },
                    JsonV::Array(items) => match obj_get(out, head) {
                        None => obj_insert(
                            out,
                            head,
                            JsonV::Array(
                                zip_paths_model(
                                    pad_objects(Seq::empty(), items.len()),
                                    items,
                                    rest,
                                ),
                            ),
                        ),
                        Some(JsonV::Array(target)) => obj_insert(
                            out,
                            head,
                            JsonV::Array(
                                zip_paths_model(pad_objects(target, items.len()), items, rest),
                            ),
                        ),
                        Some(_) => out,
                    },
                    _ => out,
                }
            },
        }
    }
}

/// Element `n` of `target` after copying `rest` from element `n` of `items`,
/// where both are objects.
pub open spec fn zip_slot(
    slot: JsonV,
    n: int,
    items: Seq<JsonV>,
    rest: Seq<Seq<char>>,
) -> JsonV
    decreases 2 * rest.len(), 1nat,
{
    if 0 <= n < items.len() {
        match (slot, items[n]) {
            (JsonV::Object(t), JsonV::Object(o)) => JsonV::Object(insert_path_model(o, rest, t)),
            _ => slot,
        }
    } else {
        slot
    }
}

/// Applies [`zip_slot`] to every element of `target`.
pub open spec fn zip_paths_model(
    target: Seq<JsonV>,
    items: Seq<JsonV>,
    rest: Seq<Seq<char>>,
) -> Seq<JsonV>
    decreases 2 * rest.len() + 1, target.len(),
{
    if target.len() == 0 {
        Seq::empty()
    } else {
        zip_paths_model(target.drop_last(), items, rest).push(
            zip_slot(target.last(), target.len() - 1, items, rest),
        )
    }
}

/// The projection of the object entries `m` to `fields`.
pub open spec fn select_fields_model(
    m: Seq<(Seq<char>, JsonV)>,
    fields: Seq<Seq<char>>,
) -> Seq<(Seq<char>, JsonV)>
    decreases fields.len(),
{
    if fields.len() == 0 {
        Seq::empty()
    } else {
        let out = select_fields_model(m, fields.drop_last());
        let path = dot_path(fields.last());
        if path.len() == 0 {
            out
        } else {
            insert_path_model(m, path, out)
        }
    }
}

/// `--select`: an object keeps only the named fields (dot paths keep their
/// nesting), an array is projected element by element, anything else is
/// returned unchanged.
pub open spec fn select_model(v: JsonV, fields: Seq<Seq<char>>) -> JsonV
    decreases v,
{
    match v {
        JsonV::Array(items) => JsonV::Array(select_items_model(items, fields)),
        JsonV::Object(m) => JsonV::Object(select_fields_model(m, fields)),
        _ => v,
    }
}

pub open spec fn select_items_model(items: Seq<JsonV>, fields: Seq<Seq<char>>) -> Seq<JsonV>
    decreases items,
{
    if items.len() == 0 {
        Seq::empty()
    } else {
        select_items_model(items.drop_last(), fields).push(select_model(items.last(), fields))
    }
}

/// The segments of a field path.
pub fn dot_path_exec(field: &str) -> (r: Vec<String>)
    ensures
        crate::text::views(r@) == dot_path(field@),
{
    let cs = chars_of(field);
    let mut done: Vec<String> = Vec::new();
    let mut cur: Vec<char> = Vec::new();
    let mut i: usize = 0;
    while i < cs.len()
        invariant
            cs@ == field@,
            i <= cs.len(),
            (crate::text::views(done@), cur@) == dot_scan(field@.take(i as int)),
        decreases cs.len() - i,
    {
        proof {
            assert(field@.take(i + 1).drop_last() =~= field@.take(i as int));
        }
        if cs[i] == '.' {
            if cur.len() > 0 {
                let seg = crate::text::string_of(cur.as_slice());
                proof {
                    assert(crate::text::views(done@.push(seg)) =~= crate::text::views(done@).push(
                        seg@,
                    ));
                }
                done.push(seg);
            }
            cur = Vec::new();
        } else {
            cur.push(cs[i]);
        }
        i = i + 1;
    }
    proof {
        assert(field@.take(i as int) =~= field@);
    }
    if cur.len() > 0 {
        let seg = crate::text::string_of(cur.as_slice());
        proof {
            assert(crate::text::views(done@.push(seg)) =~= crate::text::views(done@).push(seg@));
        }
        done.push(seg);
    }
    done
}

/// `t` lengthened to `n` elements with empty objects.
fn pad_objects_exec(t: &mut Vec<Json>, n: usize)
    ensures
        jvs(final(t)@) == pad_objects(jvs(old(t)@), n as nat),
{
    let ghost t0 = jvs(t@);
    proof {
        lemma_jvs(t@);
    }
    let start = t.len();
    while t.len() < n
        invariant
            start == t0.len(),
            t0 == jvs(old(t)@),
            start <= n ==> t@.len() <= n,
            start > n ==> t@.len() == start,
            t@.len() >= start,
            jvs(t@) == t0 + Seq::new(
                (t@.len() - start) as nat,
                |_i: int| JsonV::Object(Seq::empty()),
            ),
        decreases n - t.len(),
    {
        let ghost before = t@;
        let e: Vec<(String, Json)> = Vec::new();
        proof {
            lemma_jvs_push(before, Json::Object(e));
            assert(jes(e@) =~= Seq::<(Seq<char>, JsonV)>::empty());
            assert(t0 + Seq::new(
                (before.len() + 1 - start) as nat,
                |_i: int| JsonV::Object(Seq::empty()),
            ) =~= (t0 + Seq::new(
                (before.len() - start) as nat,
                |_i: int| JsonV::Object(Seq::empty()),
            )).push(JsonV::Object(Seq::empty())));
        }
        t.push(Json::Object(e));
    }
    proof {
        if start >= n {
            assert(t0 + Seq::new(0nat, |_i: int| JsonV::Object(Seq::empty())) =~= t0);
        } else {
            assert(jvs(t@) =~= pad_objects(t0, n as nat));
        }
    }
}

/// Copies `rest` from each object of `items` into the matching object of
/// `target`.
fn zip_paths(target: &mut Vec<Json>, items: &Vec<Json>, rest: &[String])
    requires
        rest@.len() > 0,
    ensures
        jvs(final(target)@) == zip_paths_model(
            jvs(old(target)@),
            jvs(items@),
            crate::text::views(rest@),
        ),
    decreases 2 * rest@.len() + 1,
{
    let ghost t0 = jvs(target@);
    let ghost iv = jvs(items@);
    let ghost rv = crate::text::views(rest@);
    proof {
        lemma_jvs(target@);
        lemma_jvs(items@);
    }
    let mut j: usize = 0;
    while j < target.len()
        invariant
            t0.len() == target@.len(),
            iv == jvs(items@),
            iv.len() == items@.len(),
            forall|q: int| 0 <= q < items@.len() ==> #[trigger] iv[q] == jv(items@[q]),
            rv == crate::text::views(rest@),
            rest@.len() > 0,
            j <= target.len(),
            forall|q: int| j <= q < target@.len() ==> #[trigger] jv(target@[q]) == t0[q],
            forall|q: int| 0 <= q < j ==> #[trigger] jv(target@[q]) == zip_paths_model(
                t0.take(j as int),
                iv,
                rv,
            )[q],
            zip_paths_model(t0.take(j as int), iv, rv).len() == j,
        decreases target.len() - j,
    {
        let ghost before = target@;
        proof {
            assert(t0.take(j + 1).drop_last() =~= t0.take(j as int));
        }
        if j < items.len() {
            let slot = target[j].deep_clone();
            match (slot, &items[j]) {
                (Json::Object(mut t), Json::Object(o)) => {
                    insert_path_exec(o, rest, &mut t);
                    target.set(j, Json::Object(t));
                },
                _ => {},
            }
        }
        proof {
            assert(jv(target@[j as int]) == zip_slot(t0[j as int], j as int, iv, rv));
            let z0 = zip_paths_model(t0.take(j as int), iv, rv);
            let z1 = zip_paths_model(t0.take(j + 1), iv, rv);
            assert(t0.take(j + 1).last() == t0[j as int]);
            assert(z1 == z0.push(zip_slot(t0[j as int], j as int, iv, rv)));
            assert forall|q: int| 0 <= q < j + 1 implies #[trigger] jv(target@[q])
                == zip_paths_model(t0.take(j + 1), iv, rv)[q] by {
                if q < j {
                    assert(jv(before[q]) == z0[q]);
                }
            }
        }
        j = j + 1;
    }
    proof {
        assert(t0.take(j as int) =~= t0);
        lemma_jvs_ext(target@, zip_paths_model(t0, iv, rv));
    }
}

/// Copies the leaf at `path` in `source` into `out` (see
/// [`insert_path_model`]).
fn insert_path_exec(source: &Vec<(String, Json)>, path: &[String], out: &mut Vec<(String, Json)>)
    requires
        path@.len() > 0,
    ensures
        jes(final(out)@) == insert_path_model(
            jes(source@),
            crate::text::views(path@),
            jes(old(out)@),
        ),
    decreases 2 * path@.len(),
{
    let ghost pv = crate::text::views(path@);
    let ghost rest_v = pv.drop_first();
    let head = &path[0];
    let found = obj_find(source, head.as_str());
    let fi = match found {
        None => {
            return;
        },
        Some(fi) => fi,
    };
    if path.len() == 1 {
        let v = source[fi].1.deep_clone();
        obj_insert_exec(out, head.clone(), v);
        return;
    }
    let rest = vstd::slice::slice_subrange(path, 1, path.len());
    proof {
        assert(crate::text::views(rest@) =~= rest_v);
    }
    let existing = match obj_find(out, head.as_str()) {
        Some(oi) => Some(out[oi].1.deep_clone()),
        None => None,
    };
    match &source[fi].1 {
        Json::Object(inner) => {
            let mut target: Vec<(String, Json)> = match existing {
                None => Vec::new(),
                Some(Json::Object(t)) => t,
                Some(_) => {
                    return;
                },
            };
            proof {
                if existing is None {
                    assert(jes(target@) =~= Seq::<(Seq<char>, JsonV)>::empty());
                }
            }
            insert_path_exec(inner, rest, &mut target);
            obj_insert_exec(out, head.clone(), Json::Object(target));
        },
        Json::Array(items) => {
            let mut target: Vec<Json> = match existing {
                None => Vec::new(),
                Some(Json::Array(t)) => t,
                Some(_) => {
                    return;
                },
            };
            proof {
                lemma_jvs(items@);
                if existing is None {
                    assert(jvs(target@) =~= Seq::<JsonV>::empty());
                }
            }
            pad_objects_exec(&mut target, items.len());
            zip_paths(&mut target, items, rest);
            obj_insert_exec(out, head.clone(), Json::Array(target));
        },
        _ => {},
    }
}

/// `--select`: see [`select_model`]. Missing paths are skipped; selection
/// never fails.
pub fn select(value: &Json, fields: &[&str]) -> (r: Json)
    ensures
        r@ == select_model(value@, crate::suggest::str_views(fields@)),
    decreases value,
{
    let ghost fv = crate::suggest::str_views(fields@);
    match value {
        Json::Array(items) => {
            let mut out: Vec<Json> = Vec::new();
            let mut i: usize = 0;
            proof {
                lemma_jvs(items@);
            }
            while i < items.len()
                invariant
                    *value == Json::Array(*items),
                    fv == crate::suggest::str_views(fields@),
                    i <= items.len(),
                    jvs(items@).len() == items@.len(),
                    forall|q: int| 0 <= q < items@.len() ==> #[trigger] jvs(items@)[q] == jv(items@[q]),
                    jvs(out@) == select_items_model(jvs(items@).take(i as int), fv),
                decreases items.len() - i,
            {
                proof {
                    let ghost whole = Json::Array(*items);
                    assert(whole->Array_0 == *items);
                    assert(decreases_to!(whole => *items));
                    assert(decreases_to!(*items => items@));
                    assert(decreases_to!(items@ => items@[i as int]));
                }
                let c = select(&items[i], fields);
                proof {
                    lemma_jvs_push(out@, c);
                    assert(jvs(items@).take(i + 1).drop_last() =~= jvs(items@).take(i as int));
                }
                out.push(c);
                i = i + 1;
            }
            proof {
                assert(jvs(items@).take(i as int) =~= jvs(items@));
            }
            Json::Array(out)
        },
        Json::Object(map) => {
            let mut out: Vec<(String, Json)> = Vec::new();
            let mut i: usize = 0;
            while i < fields.len()
                invariant
                    fv == crate::suggest::str_views(fields@),
                    i <= fields.len(),
                    jes(out@) == select_fields_model(jes(map@), fv.take(i as int)),
                decreases fields.len() - i,
            {
                proof {
                    assert(fv.take(i + 1).drop_last() =~= fv.take(i as int));
                }
                let path = dot_path_exec(fields[i]);
                if path.len() > 0 {
                    insert_path_exec(map, path.as_slice(), &mut out);
                }
                i = i + 1;
            }
            proof {
                assert(fv.take(i as int) =~= fv);
            }
            Json::Object(out)
        },
        _ => value.deep_clone(),
    }
}

// ---------------------------------------------------------------------------
// --compact
// ---------------------------------------------------------------------------

/// Values that carry no signal once compacted: `null` and empty containers.
pub open spec fn droppable(v: JsonV) -> bool {
    match v {
        JsonV::Null => true,
        JsonV::Object(m) => m.len() == 0,
        JsonV::Array(items) => items.len() == 0,
        _ => false,
    }
}

/// `--compact`: drops `null` fields and fields that are empty containers
/// once compacted, recursively; array elements keep their positions and
/// only their contents are compacted; `false`, `0` and `""` are kept.
pub open spec fn compact_model(v: JsonV) -> JsonV
    decreases v,
{
    match v {
        JsonV::Object(m) => JsonV::Object(compact_entries_model(m)),
        JsonV::Array(items) => JsonV::Array(compact_items_model(items)),
        _ => v,
    }
}

pub open spec fn compact_entries_model(m: Seq<(Seq<char>, JsonV)>) -> Seq<(Seq<char>, JsonV)>
    decreases m,
{
    if m.len() == 0 {
        Seq::empty()
    } else {
        let prev = compact_entries_model(m.drop_last());
        let c = compact_model(m.last().1);
        if droppable(c) {
            prev
        } else {
            obj_insert(prev, m.last().0, c)
        }
    }
}

pub open spec fn compact_items_model(items: Seq<JsonV>) -> Seq<JsonV>
    decreases items,
{
    if items.len() == 0 {
        Seq::empty()
    } else {
        compact_items_model(items.drop_last()).push(compact_model(items.last()))
    }
}

/// True for `null` and empty containers.
pub fn is_droppable(value: &Json) -> (r: bool)
    ensures
        r == droppable(value@),
{
    proof {
        match value {
            Json::Object(m) => lemma_jes(m@),
            Json::Array(items) => lemma_jvs(items@),
            _ => {},
        }
    }
    match value {
        Json::Null => true,
        Json::Object(m) => m.len() == 0,
        Json::Array(items) => items.len() == 0,
        _ => false,
    }
}

/// `--compact`: see [`compact_model`].
pub fn compact(value: &Json) -> (r: Json)
    ensures
        r@ == compact_model(value@),
    decreases value,
{
    match value {
        Json::Object(map) => {
            let ghost mv = jes(map@);
            proof {
                lemma_jes(map@);
            }
            let mut out: Vec<(String, Json)> = Vec::new();
            let mut i: usize = 0;
            while i < map.len()
                invariant
                    *value == Json::Object(*map),
                    mv == jes(map@),
                    mv.len() == map@.len(),
                    forall|q: int| 0 <= q < map@.len() ==> #[trigger] mv[q] == (map@[q].0@, jv(map@[q].1)),
                    i <= map.len(),
                    jes(out@) == compact_entries_model(mv.take(i as int)),
                decreases map.len() - i,
            {
                proof {
                    let ghost whole = Json::Object(*map);
                    assert(whole->Object_0 == *map);
                    assert(decreases_to!(whole => *map));
                    assert(decreases_to!(*map => map@));
                    assert(decreases_to!(map@ => map@[i as int]));
                    assert(decreases_to!(map@[i as int] => map@[i as int].1));
                    assert(mv.take(i + 1).drop_last() =~= mv.take(i as int));
                    assert(mv.take(i + 1).last() == mv[i as int]);
                }
                let c = compact(&map[i].1);
                if !is_droppable(&c) {
                    obj_insert_exec(&mut out, map[i].0.clone(), c);
                }
                i = i + 1;
            }
            proof {
                assert(mv.take(i as int) =~= mv);
            }
            Json::Object(out)
        },
        Json::Array(items) => {
            let ghost iv = jvs(items@);
            proof {
                lemma_jvs(items@);
            }
            let mut out: Vec<Json> = Vec::new();
            let mut i: usize = 0;
            while i < items.len()
                invariant
                    *value == Json::Array(*items),
                    iv == jvs(items@),
                    iv.len() == items@.len(),
                    forall|q: int| 0 <= q < items@.len() ==> #[trigger] iv[q] == jv(items@[q]),
                    i <= items.len(),
                    jvs(out@) == compact_items_model(iv.take(i as int)),
                decreases items.len() - i,
            {
                proof {
                    let ghost whole = Json::Array(*items);
                    assert(whole->Array_0 == *items);
                    assert(decreases_to!(whole => *items));
                    assert(decreases_to!(*items => items@));
                    assert(decreases_to!(items@ => items@[i as int]));
                    assert(iv.take(i + 1).drop_last() =~= iv.take(i as int));
                }
                let c = compact(&items[i]);
                proof {
                    lemma_jvs_push(out@, c);
                }
                out.push(c);
                i = i + 1;
            }
            proof {
                assert(iv.take(i as int) =~= iv);
            }
            Json::Array(out)
        },
        _ => value.deep_clone(),
    }
}

// ---------------------------------------------------------------------------
// Laws
// ---------------------------------------------------------------------------

/// Reading a key just written gives back the value written.
pub proof fn law_obj_get_insert_same<V>(e: Seq<(Seq<char>, V)>, k: Seq<char>, v: V)
    ensures
        obj_get(obj_insert(e, k, v), k) == Some(v),
    decreases e.len(),
{
    if e.len() > 0 && e[0].0 != k && !key_lt(k, e[0].0) {
        law_obj_get_insert_same(e.drop_first(), k, v);
        assert((seq![e[0]] + obj_insert(e.drop_first(), k, v)).drop_first() =~= obj_insert(
            e.drop_first(),
            k,
            v,
        ));
    }
}

/// Writing one key leaves every other key as it was.
pub proof fn law_obj_get_insert_other<V>(
    e: Seq<(Seq<char>, V)>,
    k: Seq<char>,
    v: V,
    other: Seq<char>,
)
    requires
        other != k,
    ensures
        obj_get(obj_insert(e, k, v), other) == obj_get(e, other),
    decreases e.len(),
{
    if e.len() > 0 {
        if e[0].0 == k {
            assert(e.update(0, (k, v)).drop_first() =~= e.drop_first());
        } else if key_lt(k, e[0].0) {
            assert((seq![(k, v)] + e).drop_first() =~= e);
        } else {
            law_obj_get_insert_other(e.drop_first(), k, v, other);
            assert((seq![e[0]] + obj_insert(e.drop_first(), k, v)).drop_first() =~= obj_insert(
                e.drop_first(),
                k,
                v,
            ));
        }
    } else {
        assert(seq![(k, v)].drop_first() =~= Seq::<(Seq<char>, V)>::empty());
    }
}

/// Every entry after an insert is the written one or was there before.
pub proof fn lemma_obj_insert_members<V>(e: Seq<(Seq<char>, V)>, k: Seq<char>, v: V)
    ensures
        forall|i: int|
            0 <= i < obj_insert(e, k, v).len() ==> #[trigger] obj_insert(e, k, v)[i] == (k, v)
                || e.contains(obj_insert(e, k, v)[i]),
    decreases e.len(),
{
    let r = obj_insert(e, k, v);
    if e.len() > 0 {
        if e[0].0 == k {
            assert forall|i: int| 0 <= i < r.len() implies #[trigger] r[i] == (k, v) || e.contains(
                r[i],
            ) by {
                if i > 0 {
                    assert(r[i] == e[i]);
                }
            }
        } else if key_lt(k, e[0].0) {
            assert forall|i: int| 0 <= i < r.len() implies #[trigger] r[i] == (k, v) || e.contains(
                r[i],
            ) by {
                if i > 0 {
                    assert(r[i] == e[i - 1]);
                }
            }
        } else {
            let t = e.drop_first();
            lemma_obj_insert_members(t, k, v);
            assert forall|i: int| 0 <= i < r.len() implies #[trigger] r[i] == (k, v) || e.contains(
                r[i],
            ) by {
                if i == 0 {
                    assert(e.contains(e[0]));
                } else {
                    assert(r[i] == obj_insert(t, k, v)[i - 1]);
                    if t.contains(r[i]) {
                        let j = choose|j: int| 0 <= j < t.len() && t[j] == r[i];
                        assert(e[j + 1] == r[i]);
                    }
                }
            }
        }
    }
}

/// `--compact` leaves no field whose value is `null` or an empty container.
pub proof fn law_compact_drops_empty_fields(m: Seq<(Seq<char>, JsonV)>)
    ensures
        forall|i: int|
            0 <= i < compact_entries_model(m).len() ==> !droppable(
                #[trigger] compact_entries_model(m)[i].1,
            ),
    decreases m.len(),
{
    if m.len() > 0 {
        let prev = compact_entries_model(m.drop_last());
        law_compact_drops_empty_fields(m.drop_last());
        let c = compact_model(m.last().1);
        if !droppable(c) {
            lemma_obj_insert_members(prev, m.last().0, c);
            let r = obj_insert(prev, m.last().0, c);
            assert forall|i: int| 0 <= i < r.len() implies !droppable(#[trigger] r[i].1) by {
                if r[i] != (m.last().0, c) {
                    let j = choose|j: int| 0 <= j < prev.len() && prev[j] == r[i];
                    assert(!droppable(prev[j].1));
                }
            }
        }
    }
}

// ---------------------------------------------------------------------------
// Key order
// ---------------------------------------------------------------------------

/// Entries whose keys strictly increase.
pub open spec fn keys_sorted<V>(e: Seq<(Seq<char>, V)>) -> bool {
    forall|i: int, j: int| 0 <= i < j < e.len() ==> key_lt(#[trigger] e[i].0, #[trigger] e[j].0)
}

pub proof fn lemma_key_lt_irreflexive(a: Seq<char>)
    ensures
        !key_lt(a, a),
    decreases a.len(),
{
    if a.len() > 0 {
        lemma_key_lt_irreflexive(a.drop_first());
    }
}

pub proof fn lemma_key_lt_transitive(a: Seq<char>, b: Seq<char>, c: Seq<char>)
    requires
        key_lt(a, b),
        key_lt(b, c),
    ensures
        key_lt(a, c),
    decreases a.len(),
{
    if a.len() > 0 && a[0] == b[0] && b[0] == c[0] {
        lemma_key_lt_transitive(a.drop_first(), b.drop_first(), c.drop_first());
    }
}

pub proof fn lemma_key_lt_total(a: Seq<char>, b: Seq<char>)
    requires
        a != b,
    ensures
        key_lt(a, b) || key_lt(b, a),
    decreases a.len(),
{
    if a.len() == 0 && b.len() == 0 {
        assert(a =~= b);
    } else if a.len() > 0 && b.len() > 0 {
        if a[0] == b[0] {
            if a.drop_first() == b.drop_first() {
                assert(a =~= seq![a[0]] + a.drop_first());
                assert(b =~= seq![b[0]] + b.drop_first());
            } else {
                lemma_key_lt_total(a.drop_first(), b.drop_first());
            }
        } else {
            lemma_char_code_injective(a[0], b[0]);
        }
    }
}

/// Distinct characters have distinct code points.
proof fn lemma_char_code_injective(x: char, y: char)
    requires
        x != y,
    ensures
        (x as u32) != (y as u32),
{
}

/// Inserting into entries with increasing keys keeps them increasing.
pub proof fn lemma_obj_insert_sorted<V>(e: Seq<(Seq<char>, V)>, k: Seq<char>, v: V)
    requires
        keys_sorted(e),
    ensures
        keys_sorted(obj_insert(e, k, v)),
    decreases e.len(),
{
    let r = obj_insert(e, k, v);
    if e.len() > 0 {
        if e[0].0 == k {
            assert forall|i: int, j: int| 0 <= i < j < r.len() implies key_lt(
                #[trigger] r[i].0,
                #[trigger] r[j].0,
            ) by {
                assert(r[i].0 == e[i].0 && r[j].0 == e[j].0);
            }
        } else if key_lt(k, e[0].0) {
            assert forall|i: int, j: int| 0 <= i < j < r.len() implies key_lt(
                #[trigger] r[i].0,
                #[trigger] r[j].0,
            ) by {
                if i == 0 {
                    if j > 1 {
                        lemma_key_lt_transitive(k, e[0].0, e[j - 1].0);
                    }
                } else {
                    assert(r[i] == e[i - 1] && r[j] == e[j - 1]);
                }
            }
        } else {
            lemma_key_lt_total(k, e[0].0);
            let t = e.drop_first();
            assert(keys_sorted(t)) by {
                assert forall|i: int, j: int| 0 <= i < j < t.len() implies key_lt(
                    #[trigger] t[i].0,
                    #[trigger] t[j].0,
                ) by {
                    assert(t[i] == e[i + 1] && t[j] == e[j + 1]);
                }
            }
            lemma_obj_insert_sorted(t, k, v);
            lemma_obj_insert_members(t, k, v);
            let rt = obj_insert(t, k, v);
            assert(r =~= seq![e[0]] + rt);
            assert forall|i: int, j: int| 0 <= i < j < r.len() implies key_lt(
                #[trigger] r[i].0,
                #[trigger] r[j].0,
            ) by {
                if i == 0 {
                    assert(r[j] == rt[j - 1]);
                    if rt[j - 1] != (k, v) {
                        let q = choose|q: int| 0 <= q < t.len() && t[q] == rt[j - 1];
                        assert(t[q] == e[q + 1]);
                    }
                } else {
                    assert(r[i] == rt[i - 1] && r[j] == rt[j - 1]);
                }
            }
        }
    }
}

/// Inserting a key past every key already there appends it.
pub proof fn lemma_obj_insert_at_end<V>(e: Seq<(Seq<char>, V)>, k: Seq<char>, v: V)
    requires
        forall|i: int| 0 <= i < e.len() ==> key_lt(#[trigger] e[i].0, k),
    ensures
        obj_insert(e, k, v) == e.push((k, v)),
    decreases e.len(),
{
    if e.len() > 0 {
        lemma_key_lt_irreflexive(k);
        if key_lt(k, e[0].0) {
            lemma_key_lt_transitive(k, e[0].0, k);
        }
        let t = e.drop_first();
        assert forall|i: int| 0 <= i < t.len() implies key_lt(#[trigger] t[i].0, k) by {
            assert(t[i] == e[i + 1]);
        }
        lemma_obj_insert_at_end(t, k, v);
        assert(seq![e[0]] + t.push((k, v)) =~= e.push((k, v)));
    } else {
        assert(seq![(k, v)] =~= e.push((k, v)));
    }
}

/// Compacting entries gives increasing keys, and values that are compact
/// and not droppable.
proof fn lemma_compact_entries_shape(m: Seq<(Seq<char>, JsonV)>)
    ensures
        keys_sorted(compact_entries_model(m)),
        forall|i: int|
            0 <= i < compact_entries_model(m).len() ==> compact_model(
                #[trigger] compact_entries_model(m)[i].1,
            ) == compact_entries_model(m)[i].1 && !droppable(compact_entries_model(m)[i].1),
    decreases m,
{
    if m.len() > 0 {
        let prev = compact_entries_model(m.drop_last());
        lemma_compact_entries_shape(m.drop_last());
        let k = m.last().0;
        let c = compact_model(m.last().1);
        lemma_compact_idempotent(m.last().1);
        if !droppable(c) {
            lemma_obj_insert_sorted(prev, k, c);
            lemma_obj_insert_members(prev, k, c);
            let r = obj_insert(prev, k, c);
            assert forall|i: int| 0 <= i < r.len() implies compact_model(#[trigger] r[i].1) == r[i].1
                && !droppable(r[i].1) by {
                if r[i] != (k, c) {
                    let j = choose|j: int| 0 <= j < prev.len() && prev[j] == r[i];
                    assert(compact_model(prev[j].1) == prev[j].1);
                }
            }
        }
    } else {
        assert(compact_entries_model(m) =~= Seq::<(Seq<char>, JsonV)>::empty());
    }
}

/// Entries already in compact form are rebuilt unchanged.
proof fn lemma_compact_entries_fixed(e: Seq<(Seq<char>, JsonV)>)
    requires
        keys_sorted(e),
        forall|i: int| 0 <= i < e.len() ==> compact_model(#[trigger] e[i].1) == e[i].1 && !droppable(
            e[i].1,
        ),
    ensures
        compact_entries_model(e) == e,
    decreases e.len(),
{
    if e.len() > 0 {
        let p = e.drop_last();
        assert forall|i: int| 0 <= i < p.len() implies compact_model(#[trigger] p[i].1) == p[i].1
            && !droppable(p[i].1) by {
            assert(p[i] == e[i]);
        }
        assert(keys_sorted(p)) by {
            assert forall|i: int, j: int| 0 <= i < j < p.len() implies key_lt(
                #[trigger] p[i].0,
                #[trigger] p[j].0,
            ) by {
                assert(p[i] == e[i] && p[j] == e[j]);
            }
        }
        lemma_compact_entries_fixed(p);
        let last = e[e.len() - 1];
        assert(compact_model(last.1) == last.1 && !droppable(last.1));
        assert forall|i: int| 0 <= i < p.len() implies key_lt(#[trigger] p[i].0, last.0) by {
            assert(p[i] == e[i]);
        }
        lemma_obj_insert_at_end(p, last.0, last.1);
        assert(p.push(last) =~= e);
    } else {
        assert(e =~= Seq::<(Seq<char>, JsonV)>::empty());
    }
}

proof fn lemma_compact_items_idempotent(items: Seq<JsonV>)
    ensures
        compact_items_model(compact_items_model(items)) == compact_items_model(items),
    decreases items,
{
    if items.len() > 0 {
        lemma_compact_items_idempotent(items.drop_last());
        lemma_compact_idempotent(items.last());
        let c = compact_items_model(items);
        assert(c.drop_last() =~= compact_items_model(items.drop_last()));
    }
}

/// `--compact` applied twice gives what it gives once.
pub proof fn lemma_compact_idempotent(v: JsonV)
    ensures
        compact_model(compact_model(v)) == compact_model(v),
    decreases v,
{
    match v {
        JsonV::Object(m) => {
            lemma_compact_entries_shape(m);
            lemma_compact_entries_fixed(compact_entries_model(m));
        },
        JsonV::Array(items) => {
            lemma_compact_items_idempotent(items);
        },
        _ => {},
    }
}

/// No object inside `v`, at any depth, has a field whose value is `null` or
/// an empty container.
pub open spec fn no_empty_fields(v: JsonV) -> bool
    decreases v,
{
    match v {
        JsonV::Object(m) => entries_clean(m),
        JsonV::Array(items) => items_clean(items),
        _ => true,
    }
}

/// Every field keeps a value that is neither `null` nor an empty
/// container, and has no such field inside it.
pub open spec fn entries_clean(m: Seq<(Seq<char>, JsonV)>) -> bool
    decreases m,
{
    if m.len() == 0 {
        true
    } else {
        entries_clean(m.drop_last()) && !droppable(m.last().1) && no_empty_fields(m.last().1)
    }
}

/// No element has a `null` or empty field inside it.
pub open spec fn items_clean(items: Seq<JsonV>) -> bool
    decreases items,
{
    if items.len() == 0 {
        true
    } else {
        items_clean(items.drop_last()) && no_empty_fields(items.last())
    }
}

proof fn lemma_entries_clean_from_all(e: Seq<(Seq<char>, JsonV)>)
    requires
        forall|i: int| 0 <= i < e.len() ==> !droppable(#[trigger] e[i].1) && no_empty_fields(e[i].1),
    ensures
        entries_clean(e),
    decreases e.len(),
{
    if e.len() > 0 {
        let p = e.drop_last();
        assert forall|i: int| 0 <= i < p.len() implies !droppable(#[trigger] p[i].1) && no_empty_fields(
            p[i].1,
        ) by {
            assert(p[i] == e[i]);
        }
        lemma_entries_clean_from_all(p);
        assert(e.last() == e[e.len() - 1]);
    }
}

/// Compacting entries leaves values that are not droppable and have no
/// empty field inside.
proof fn lemma_compact_entries_clean(m: Seq<(Seq<char>, JsonV)>)
    ensures
        forall|i: int|
            0 <= i < compact_entries_model(m).len() ==> !droppable(
                #[trigger] compact_entries_model(m)[i].1,
            ) && no_empty_fields(compact_entries_model(m)[i].1),
    decreases m,
{
    if m.len() > 0 {
        let prev = compact_entries_model(m.drop_last());
        lemma_compact_entries_clean(m.drop_last());
        let k = m.last().0;
        let c = compact_model(m.last().1);
        lemma_compact_clean(m.last().1);
        if !droppable(c) {
            lemma_obj_insert_members(prev, k, c);
            let r = obj_insert(prev, k, c);
            assert forall|i: int| 0 <= i < r.len() implies !droppable(#[trigger] r[i].1)
                && no_empty_fields(r[i].1) by {
                if r[i] != (k, c) {
                    let j = choose|j: int| 0 <= j < prev.len() && prev[j] == r[i];
                    assert(!droppable(prev[j].1) && no_empty_fields(prev[j].1));
                }
            }
        }
    }
}

proof fn lemma_compact_items_clean(items: Seq<JsonV>)
    ensures
        items_clean(compact_items_model(items)),
    decreases items,
{
    if items.len() > 0 {
        lemma_compact_items_clean(items.drop_last());
        lemma_compact_clean(items.last());
        let c = compact_items_model(items);
        assert(c.drop_last() =~= compact_items_model(items.drop_last()));
    }
}

proof fn lemma_compact_clean(v: JsonV)
    ensures
        no_empty_fields(compact_model(v)),
    decreases v,
{
    match v {
        JsonV::Object(m) => {
            lemma_compact_entries_clean(m);
            lemma_entries_clean_from_all(compact_entries_model(m));
        },
        JsonV::Array(items) => {
            lemma_compact_items_clean(items);
        },
        _ => {},
    }
}

/// `--compact` leaves no field, at any depth, whose value is `null`, `{}`
/// or `[]`; arrays keep every element in its position; `false`, `0`, `""`
/// and every other scalar come back unchanged.
pub proof fn law_compact_leaves_no_empty_field(v: JsonV)
    ensures
        no_empty_fields(compact_model(v)),
        v is Array ==> compact_model(v) is Array && compact_model(v)->Array_0.len() == v->Array_0.len(),
        !(v is Object) && !(v is Array) ==> compact_model(v) == v,
{
    lemma_compact_clean(v);
    match v {
        JsonV::Array(items) => law_compact_keeps_array_positions(items),
        _ => {},
    }
}

/// `--compact` is idempotent: compacting a compacted value changes nothing.
pub proof fn law_compact_idempotent(v: JsonV)
    ensures
        compact_model(compact_model(v)) == compact_model(v),
{
    lemma_compact_idempotent(v);
}

/// `--compact` keeps every array element in its position and only compacts
/// its contents.
pub proof fn law_compact_keeps_array_positions(items: Seq<JsonV>)
    ensures
        compact_model(JsonV::Array(items)) == JsonV::Array(compact_items_model(items)),
        compact_items_model(items).len() == items.len(),
        forall|i: int|
            0 <= i < items.len() ==> #[trigger] compact_items_model(items)[i] == compact_model(
                items[i],
            ),
    decreases items.len(),
{
    if items.len() > 0 {
        law_compact_keeps_array_positions(items.drop_last());
    }
}

/// `--select` on an array projects each element and keeps the length.
pub proof fn law_select_maps_over_arrays(items: Seq<JsonV>, fields: Seq<Seq<char>>)
    ensures
        select_model(JsonV::Array(items), fields) == JsonV::Array(select_items_model(items, fields)),
        select_items_model(items, fields).len() == items.len(),
        forall|i: int|
            0 <= i < items.len() ==> #[trigger] select_items_model(items, fields)[i]
                == select_model(items[i], fields),
    decreases items.len(),
{
    if items.len() > 0 {
        law_select_maps_over_arrays(items.drop_last(), fields);
    }
}

/// A field path naming a key the object does not have selects nothing.
pub proof fn law_select_missing_key_is_noop(
    m: Seq<(Seq<char>, JsonV)>,
    path: Seq<Seq<char>>,
    out: Seq<(Seq<char>, JsonV)>,
)
    requires
        path.len() > 0,
        obj_get(m, path[0]) is None,
    ensures
        insert_path_model(m, path, out) == out,
{
}

// ---------------------------------------------------------------------------
// Building values
// ---------------------------------------------------------------------------

/// The decimal text of an integer.
pub open spec fn int_text(n: int) -> Seq<char> {
    if n < 0 {
        seq!['-'] + decimal((-n) as nat)
    } else {
        decimal(n as nat)
    }
}

impl Json {
    /// `null`.
    pub fn null() -> (r: Json)
        ensures
            r@ == JsonV::Null,
    {
        Json::Null
    }

    pub fn from_bool(b: bool) -> (r: Json)
        ensures
            r@ == JsonV::Bool(b),
    {
        Json::Bool(b)
    }

    /// A non-negative integer.
    pub fn from_u64(n: u64) -> (r: Json)
        ensures
            r@ == JsonV::Number(decimal(n as nat)),
            is_number_text(decimal(n as nat)),
    {
        proof {
            lemma_decimal_is_number(n as nat);
        }
        let mut s = String::new();
        push_decimal(&mut s, n);
        Json::Number(s)
    }

    /// An integer.
    pub fn from_i64(n: i64) -> (r: Json)
        ensures
            r@ == JsonV::Number(int_text(n as int)),
            is_number_text(int_text(n as int)),
    {
        proof {
            if n < 0 {
                lemma_decimal_is_number((-n) as nat);
            } else {
                lemma_decimal_is_number(n as nat);
            }
        }
        let mut s = String::new();
        if n < 0 {
            push_char(&mut s, '-');
            let m: u64 = if n == i64::MIN {
                9_223_372_036_854_775_808u64
            } else {
                (-n) as u64
            };
            push_decimal(&mut s, m);
        } else {
            push_decimal(&mut s, n as u64);
        }
        Json::Number(s)
    }

    /// A string.
    pub fn from_str(s: &str) -> (r: Json)
        ensures
            r@ == JsonV::Str(s@),
    {
        Json::Str(crate::text::owned(s))
    }

    /// An object holding `entries`, inserted in order (a later duplicate key
    /// replaces an earlier one).
    pub fn from_entries(entries: Vec<(String, Json)>) -> (r: Json)
        ensures
            r@ == JsonV::Object(obj_from(jes(entries@))),
    {
        let ghost ev = jes(entries@);
        proof {
            lemma_jes(entries@);
        }
        let mut out: Vec<(String, Json)> = Vec::new();
        let mut i: usize = 0;
        while i < entries.len()
            invariant
                ev == jes(entries@),
                ev.len() == entries@.len(),
                forall|q: int| 0 <= q < entries@.len() ==> #[trigger] ev[q] == (entries@[q].0@, jv(entries@[q].1)),
                i <= entries.len(),
                jes(out@) == obj_from(ev.take(i as int)),
            decreases entries.len() - i,
        {
            proof {
                assert(ev.take(i + 1).drop_last() =~= ev.take(i as int));
            }
            let k = entries[i].0.clone();
            let v = entries[i].1.deep_clone();
            obj_insert_exec(&mut out, k, v);
            i = i + 1;
        }
        proof {
            assert(ev.take(i as int) =~= ev);
        }
        Json::Object(out)
    }

    /// The value under `key`, for an object.
    pub fn get(&self, key: &str) -> (r: Option<&Json>)
        ensures
            match self@ {
                JsonV::Object(m) => match r {
                    Some(v) => obj_get(m, key@) == Some(v@),
                    None => obj_get(m, key@) is None,
                },
                _ => r is None,
            },
    {
        match self {
            Json::Object(entries) => match obj_find(entries, key) {
                Some(i) => Some(&entries[i].1),
                None => None,
            },
            _ => None,
        }
    }
}

impl Clone for Json {
    fn clone(&self) -> (r: Self)
        ensures
            r@ == self@,
    {
        self.deep_clone()
    }
}

/// How many digits follow position `k` of `t` without a break.
pub open spec fn digit_run(t: Seq<char>, k: int) -> nat
    decreases t.len() - k,
{
    if 0 <= k < t.len() && is_digit(t[k]) {
        1 + digit_run(t, k + 1)
    } else {
        0
    }
}

/// Where the exponent of a number ends, when the part before it ends at
/// `j`: past `e`/`E`, an optional sign and at least one digit; `None` when
/// the marker is there but no digit follows.
pub open spec fn exponent_end(t: Seq<char>, j: int) -> Option<int> {
    if j < t.len() && (t[j] == 'e' || t[j] == 'E') {
        let k = if j + 1 < t.len() && (t[j + 1] == '+' || t[j + 1] == '-') {
            j + 2
        } else {
            j + 1
        };
        if digit_run(t, k) > 0 {
            Some(k + digit_run(t, k))
        } else {
            None
        }
    } else {
        Some(j)
    }
}

/// Where the fraction of a number ends, when its integer part ends at `i`:
/// past `.` and at least one digit; `None` when the dot has no digit.
pub open spec fn fraction_end(t: Seq<char>, i: int) -> Option<int> {
    if i < t.len() && t[i] == '.' {
        if digit_run(t, i + 1) > 0 {
            Some(i + 1 + digit_run(t, i + 1))
        } else {
            None
        }
    } else {
        Some(i)
    }
}

/// The JSON number grammar: an optional `-`, an integer part without a
/// leading zero, an optional fraction, an optional exponent, and nothing
/// else.
pub open spec fn is_number_text(t: Seq<char>) -> bool {
    let s: int = if t.len() >= 1 && t[0] == '-' { 1 } else { 0 };
    let n = digit_run(t, s);
    let i = s + n;
    &&& n >= 1
    &&& (t[s] == '0' ==> n == 1)
    &&& match fraction_end(t, i) {
        Some(j) => exponent_end(t, j) == Some(t.len() as int),
        None => false,
    }
}

/// The number of digits from `k` on (see [`digit_run`]).
fn digit_run_exec(cs: &Vec<char>, k: usize) -> (r: usize)
    requires
        k <= cs.len(),
    ensures
        r == digit_run(cs@, k as int),
        k + r <= cs.len(),
{
    let mut i = k;
    while i < cs.len() && is_digit_exec(cs[i])
        invariant
            k <= i <= cs.len(),
            digit_run(cs@, k as int) == (i - k) + digit_run(cs@, i as int),
        decreases cs.len() - i,
    {
        i = i + 1;
    }
    i - k
}

proof fn lemma_digit_run_all(t: Seq<char>, k: int)
    requires
        0 <= k <= t.len(),
        forall|i: int| k <= i < t.len() ==> is_digit(#[trigger] t[i]),
    ensures
        digit_run(t, k) == t.len() - k,
    decreases t.len() - k,
{
    if k < t.len() {
        lemma_digit_run_all(t, k + 1);
    }
}

proof fn lemma_decimal_lead(n: nat)
    requires
        n >= 1,
    ensures
        decimal(n)[0] != '0',
    decreases n,
{
    if n >= 10 {
        lemma_decimal_lead(n / 10);
        crate::text::lemma_decimal_digits(n / 10);
        assert(decimal(n)[0] == decimal(n / 10)[0]);
    } else {
        crate::text::lemma_digit_char(n);
        assert((n + '0' as nat) as char as int == n + 48);
    }
}

/// The decimal text of a natural number is JSON number text.
pub proof fn lemma_decimal_is_number(n: nat)
    ensures
        is_number_text(decimal(n)),
        is_number_text(int_text(n as int)),
        n >= 1 ==> is_number_text(int_text(-(n as int))),
{
    let t = decimal(n);
    crate::text::lemma_decimal_digits(n);
    lemma_digit_run_all(t, 0);
    assert(t[0] != '-') by {
        assert(is_digit(t[0]));
    }
    if n >= 1 {
        lemma_decimal_lead(n);
    } else {
        assert(t =~= seq![crate::text::digit_char(0)]);
    }
    assert(int_text(n as int) == t);
    if n >= 1 {
        let u = int_text(-(n as int));
        assert(u == seq!['-'] + t);
        assert forall|i: int| 1 <= i < u.len() implies is_digit(#[trigger] u[i]) by {
            assert(u[i] == t[i - 1]);
        }
        lemma_digit_run_all(u, 1);
        assert(u[1] == t[0]);
    }
}

impl Json {
    /// A number from its JSON text, or `None` when `text` is not a JSON
    /// number (see [`is_number_text`]).
    pub fn number(text: &str) -> (r: Option<Json>)
        ensures
            match r {
                Some(j) => is_number_text(text@) && j@ == JsonV::Number(text@),
                None => !is_number_text(text@),
            },
    {
        let cs = chars_of(text);
        let s: usize = if cs.len() >= 1 && cs[0] == '-' { 1 } else { 0 };
        let n = digit_run_exec(&cs, s);
        if n == 0 {
            return None;
        }
        if cs[s] == '0' && n != 1 {
            return None;
        }
        let i = s + n;
        let j = if i < cs.len() && cs[i] == '.' {
            let f = digit_run_exec(&cs, i + 1);
            if f == 0 {
                return None;
            }
            i + 1 + f
        } else {
            i
        };
        let end = if j < cs.len() && (cs[j] == 'e' || cs[j] == 'E') {
            let k = if j + 1 < cs.len() && (cs[j + 1] == '+' || cs[j + 1] == '-') {
                j + 2
            } else {
                j + 1
            };
            let d = digit_run_exec(&cs, k);
            if d == 0 {
                return None;
            }
            k + d
        } else {
            j
        };
        if end != cs.len() {
            return None;
        }
        Some(Json::Number(crate::text::owned(text)))
    }
}

/// The value of the last entry with key `k`, if any.
pub open spec fn last_value<V>(s: Seq<(Seq<char>, V)>, k: Seq<char>) -> Option<V>
    decreases s.len(),
{
    if s.len() == 0 {
        None
    } else if s.last().0 == k {
        Some(s.last().1)
    } else {
        last_value(s.drop_last(), k)
    }
}

/// Building an object from entries keeps, for each key, the value of its
/// last entry: a later field overrides an earlier one.
pub proof fn law_obj_from_last_wins<V>(s: Seq<(Seq<char>, V)>, k: Seq<char>)
    ensures
        obj_get(obj_from(s), k) == last_value(s, k),
    decreases s.len(),
{
    if s.len() > 0 {
        law_obj_from_last_wins(s.drop_last(), k);
        if s.last().0 == k {
            law_obj_get_insert_same(obj_from(s.drop_last()), k, s.last().1);
        } else {
            law_obj_get_insert_other(obj_from(s.drop_last()), s.last().0, s.last().1, k);
        }
    }
}

/// The last entry for `k` in `a + b` is the last in `b`, or else the last in
/// `a`.
pub proof fn lemma_last_value_concat<V>(a: Seq<(Seq<char>, V)>, b: Seq<(Seq<char>, V)>, k: Seq<char>)
    ensures
        last_value(a + b, k) == match last_value(b, k) {
            Some(v) => Some(v),
            None => last_value(a, k),
        },
    decreases b.len(),
{
    if b.len() == 0 {
        assert(a + b =~= a);
    } else {
        lemma_last_value_concat(a, b.drop_last(), k);
        assert((a + b).drop_last() =~= a + b.drop_last());
        assert((a + b).last() == b.last());
    }
}

/// Inserting never empties an object.
pub proof fn lemma_obj_insert_nonempty<V>(e: Seq<(Seq<char>, V)>, k: Seq<char>, v: V)
    ensures
        obj_insert(e, k, v).len() >= 1,
        obj_insert(e, k, v).len() >= e.len(),
    decreases e.len(),
{
    if e.len() > 0 && e[0].0 != k && !key_lt(k, e[0].0) {
        lemma_obj_insert_nonempty(e.drop_first(), k, v);
    }
}

/// `e` without the first entry with key `k`.
pub open spec fn obj_remove<V>(e: Seq<(Seq<char>, V)>, k: Seq<char>) -> Seq<(Seq<char>, V)>
    decreases e.len(),
{
    if e.len() == 0 {
        e
    } else if e[0].0 == k {
        e.drop_first()
    } else {
        seq![e[0]] + obj_remove(e.drop_first(), k)
    }
}

/// Removes key `k`, giving back its value.
pub fn obj_remove_exec(e: &mut Vec<(String, Json)>, k: &str) -> (r: Option<Json>)
    ensures
        jes(final(e)@) == obj_remove(jes(old(e)@), k@),
        match r {
            Some(v) => obj_get(jes(old(e)@), k@) == Some(v@),
            None => obj_get(jes(old(e)@), k@) is None,
        },
{
    let ghost m = jes(e@);
    proof {
        lemma_jes(e@);
        assert(m.skip(0) =~= m);
        assert(m.take(0) + obj_remove(m, k@) =~= obj_remove(m, k@));
    }
    let mut i: usize = 0;
    while i < e.len()
        invariant
            *e == *old(e),
            m == jes(old(e)@),
            m.len() == e@.len(),
            forall|q: int| 0 <= q < e@.len() ==> #[trigger] m[q] == (e@[q].0@, jv(e@[q].1)),
            i <= e.len(),
            obj_get(m, k@) == obj_get(m.skip(i as int), k@),
            obj_remove(m, k@) == m.take(i as int) + obj_remove(m.skip(i as int), k@),
        decreases e.len() - i,
    {
        proof {
            assert(m.skip(i as int).drop_first() =~= m.skip(i + 1));
            assert(m.skip(i as int)[0] == m[i as int]);
        }
        if crate::text::str_eq(e[i].0.as_str(), k) {
            let (_, v) = e.remove(i);
            proof {
                assert(m.take(i as int) + m.skip(i + 1) =~= m.remove(i as int));
                lemma_jes_ext(e@, m.remove(i as int));
            }
            return Some(v);
        }
        proof {
            assert(m.take(i as int) + (seq![m[i as int]] + obj_remove(m.skip(i + 1), k@))
                =~= m.take(i + 1) + obj_remove(m.skip(i + 1), k@));
        }
        i = i + 1;
    }
    proof {
        assert(m.take(i as int) =~= m);
        assert(m.skip(i as int) =~= Seq::<(Seq<char>, JsonV)>::empty());
        assert(m + Seq::<(Seq<char>, JsonV)>::empty() =~= m);
    }
    None
}

} // verus!
