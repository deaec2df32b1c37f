//! The JSON document model the server computes over.
//!
//! Numbers carry fixed-point thousandths (`Num(1500)` is the number `1.5`),
//! which covers the integral ids, error codes and latencies of the protocol
//! as well as the fractional bounding-box coordinates the recognition
//! service returns, without floating point. Strings are UTF-8 byte
//! sequences; objects keep their entries in insertion order.
//!
//! `Json` is the executable document; its mathematical shadow is `JsonV`,
//! reached through the `View` impl, and every contract in the crate speaks
//! of `JsonV` values.
use vstd::prelude::*;

verus! {

/// The factor between a JSON number and its fixed-point representation.
pub const NUM_SCALE: i64 = 1000;

/// The mathematical shape of a document: `Num` holds the number value
/// times 1000 as an unbounded integer.
#[verifier::ext_equal]
pub enum JsonV {
    Null,
    Bool(bool),
    Num(int),
    Str(Seq<u8>),
    Arr(Seq<JsonV>),
    Obj(Seq<(Seq<u8>, JsonV)>),
}

#[derive(Debug)]
pub enum Json {
    Null,
    Bool(bool),
    /// The number value times 1000.
    Num(i64),
    /// UTF-8 bytes of the string content.
    Str(Vec<u8>),
    Arr(Vec<Json>),
    Obj(Vec<(Vec<u8>, Json)>),
}

pub open spec fn jview(j: Json) -> JsonV
    decreases j,
{
    match j {
        Json::Null => JsonV::Null,
        Json::Bool(b) => JsonV::Bool(b),
        Json::Num(m) => JsonV::Num(m as int),
        Json::Str(s) => JsonV::Str(s@),
        Json::Arr(v) => JsonV::Arr(varr(v@)),
        Json::Obj(v) => JsonV::Obj(vobj(v@)),
    }
}

pub open spec fn varr(s: Seq<Json>) -> Seq<JsonV>
    decreases s,
{
    if s.len() == 0 {
        Seq::empty()
    } else {
        varr(s.drop_last()).push(jview(s.last()))
    }
}

pub open spec fn vobj(s: Seq<(Vec<u8>, Json)>) -> Seq<(Seq<u8>, JsonV)>
    decreases s,
{
    if s.len() == 0 {
        Seq::empty()
    } else {
        vobj(s.drop_last()).push((s.last().0@, jview(s.last().1)))
    }
}

impl View for Json {
    type V = JsonV;

    open spec fn view(&self) -> JsonV {
        jview(*self)
    }
}

pub broadcast proof fn lemma_varr(s: Seq<Json>)
    ensures
        (#[trigger] varr(s)).len() == s.len(),
        forall|i: int| 0 <= i < s.len() ==> varr(s)[i] == jview(s[i]),
    decreases s.len(),
{
    if s.len() > 0 {
        lemma_varr(s.drop_last());
    }
}

pub broadcast proof fn lemma_vobj(s: Seq<(Vec<u8>, Json)>)
    ensures
        (#[trigger] vobj(s)).len() == s.len(),
        forall|i: int|
            0 <= i < s.len() ==> vobj(s)[i] == (s[i].0@, jview(s[i].1)),
    decreases s.len(),
{
    if s.len() > 0 {
        lemma_vobj(s.drop_last());
    }
}

/// The value bound to `key` among `entries`, first binding wins.
pub open spec fn entries_get(entries: Seq<(Seq<u8>, JsonV)>, key: Seq<u8>) -> Option<JsonV>
    decreases entries.len(),
{
    if entries.len() == 0 {
        None
    } else if entries[0].0 == key {
        Some(entries[0].1)
    } else {
        entries_get(entries.subrange(1, entries.len() as int), key)
    }
}

/// The value bound to `key` when `j` is an object that has it.
pub open spec fn spec_get(j: JsonV, key: Seq<u8>) -> Option<JsonV> {
    match j {
        JsonV::Obj(entries) => entries_get(entries, key),
        _ => None,
    }
}

/// String content of `j` when `j` is a string.
pub open spec fn spec_as_str(j: Option<JsonV>) -> Option<Seq<u8>> {
    match j {
        Some(JsonV::Str(s)) => Some(s),
        _ => None,
    }
}

pub open spec fn spec_as_bool(j: Option<JsonV>) -> Option<bool> {
    match j {
        Some(JsonV::Bool(b)) => Some(b),
        _ => None,
    }
}

/// The integer value of `j` when `j` is an integral number, as `as_i64`
/// reports it: a fractional number has none.
pub open spec fn spec_as_int(j: Option<JsonV>) -> Option<int> {
    match j {
        Some(JsonV::Num(m)) => if m % (NUM_SCALE as int) == 0 {
            Some(m / (NUM_SCALE as int))
        } else {
            None
        },
        _ => None,
    }
}

impl Json {
    /// Looks `key` up when `self` is an object.
    pub fn get(&self, key: &[u8]) -> (r: Option<&Json>)
        ensures
            match r {
                Some(v) => spec_get(self@, key@) == Some(v@),
                None => spec_get(self@, key@) is None,
            },
    {
        broadcast use lemma_vobj;

        match self {
            Json::Obj(entries) => {
                let ghost ev = vobj(entries@);
                proof {
                    lemma_vobj(entries@);
                    assert(ev.subrange(0, ev.len() as int) =~= ev);
                }
                let mut i: usize = 0;
                while i < entries.len()
                    invariant
                        *self == Json::Obj(*entries),
                        0 <= i <= entries@.len(),
                        ev == vobj(entries@),
                        ev.len() == entries@.len(),
                        forall|j: int| 0 <= j < i ==> ev[j].0 != key@,
                        entries_get(ev, key@) == entries_get(
                            ev.subrange(i as int, ev.len() as int),
                            key@,
                        ),
                    decreases entries@.len() - i,
                {
                    proof {
                        lemma_vobj(entries@);
                        assert(ev[i as int] == (entries@[i as int].0@, jview(
                            entries@[i as int].1,
                        )));
                    }
                    if crate::bytes::bytes_eq(entries[i].0.as_slice(), key) {
                        assert(ev.subrange(i as int, ev.len() as int)[0] == ev[i as int]);
                        assert(entries_get(ev, key@) == Some(ev[i as int].1));
                        return Some(&entries[i].1);
                    }
                    proof {
                        let tail = ev.subrange(i as int, ev.len() as int);
                        assert(tail[0] == ev[i as int]);
                        assert(tail.subrange(1, tail.len() as int) =~= ev.subrange(
                            i + 1,
                            ev.len() as int,
                        ));
                    }
                    i = i + 1;
                }
                assert(ev.subrange(i as int, ev.len() as int).len() == 0);
                None
            },
            _ => None,
        }
    }

    pub fn as_str(&self) -> (r: Option<&Vec<u8>>)
        ensures
            match r {
                Some(s) => spec_as_str(Some(self@)) == Some(s@),
                None => spec_as_str(Some(self@)) is None,
            },
    {
        match self {
            Json::Str(s) => Some(s),
            _ => None,
        }
    }

    pub fn as_bool(&self) -> (r: Option<bool>)
        ensures
            r == spec_as_bool(Some(self@)),
    {
        match self {
            Json::Bool(b) => Some(*b),
            _ => None,
        }
    }

    pub fn as_int(&self) -> (r: Option<i64>)
        ensures
            match r {
                Some(v) => spec_as_int(Some(self@)) == Some(v as int),
                None => spec_as_int(Some(self@)) is None,
            },
    {
        match self {
            Json::Num(m) => {
                if *m >= 0 {
                    if *m % NUM_SCALE == 0 {
                        Some(*m / NUM_SCALE)
                    } else {
                        None
                    }
                } else if *m == i64::MIN {
                    proof {
                        assert((i64::MIN as int) % (NUM_SCALE as int) != 0);
                    }
                    None
                } else {
                    let p = -*m;
                    if p % NUM_SCALE == 0 {
                        let q = p / NUM_SCALE;
                        proof {
                            assert(p == NUM_SCALE * q);
                            assert((m as int) == (NUM_SCALE as int) * (-q as int));
                            vstd::arithmetic::div_mod::lemma_mod_multiples_basic(
                                -q as int,
                                NUM_SCALE as int,
                            );
                            vstd::arithmetic::div_mod::lemma_div_multiples_vanish(
                                -q as int,
                                NUM_SCALE as int,
                            );
                        }
                        Some(-q)
                    } else {
                        proof {
                            let mi = m as int;
                            let s = NUM_SCALE as int;
                            if mi % s == 0 {
                                let q = mi / s;
                                vstd::arithmetic::div_mod::lemma_fundamental_div_mod(mi, s);
                                assert(mi == s * q);
                                assert(p as int == s * (-q));
                                vstd::arithmetic::div_mod::lemma_mod_multiples_basic(-q, s);
                            }
                        }
                        None
                    }
                }
            },
            _ => None,
        }
    }
}

/// A deep copy; the model has no derived `Clone`, the recursion through
/// the vectors stands here instead.
pub fn json_clone(j: &Json) -> (r: Json)
    ensures
        r@ == j@,
    decreases *j,
{
    broadcast use lemma_varr, lemma_vobj;

    match j {
        Json::Null => Json::Null,
        Json::Bool(b) => Json::Bool(*b),
        Json::Num(m) => Json::Num(*m),
        Json::Str(s) => Json::Str(crate::bytes::bytes_clone(s.as_slice())),
        Json::Arr(items) => {
            let mut out: Vec<Json> = Vec::new();
            let mut i: usize = 0;
            while i < items.len()
                invariant
                    0 <= i <= items@.len(),
                    out@.len() == i,
                    forall|k: int| 0 <= k < i ==> jview(out@[k]) == jview(items@[k]),
                    *j == Json::Arr(*items),
                decreases items@.len() - i,
            {
                proof {
                    assert(decreases_to!(*j => (*j)->Arr_0));
                    assert(decreases_to!(*items => items@));
                    assert(decreases_to!(items@ => items@[i as int]));
                }
                let item = json_clone(&items[i]);
                out.push(item);
                i = i + 1;
            }
            proof {
                lemma_varr(out@);
                lemma_varr(items@);
                assert(varr(out@) =~= varr(items@));
            }
            Json::Arr(out)
        },
        Json::Obj(entries) => {
            let mut out: Vec<(Vec<u8>, Json)> = Vec::new();
            let mut i: usize = 0;
            while i < entries.len()
                invariant
                    0 <= i <= entries@.len(),
                    out@.len() == i,
                    forall|k: int|
                        0 <= k < i ==> out@[k].0@ == entries@[k].0@ && jview(out@[k].1) == jview(
                            entries@[k].1,
                        ),
                    *j == Json::Obj(*entries),
                decreases entries@.len() - i,
            {
                proof {
                    assert(decreases_to!(*j => (*j)->Obj_0));
                    assert(decreases_to!(*entries => entries@));
                    assert(decreases_to!(entries@ => entries@[i as int]));
                    assert(decreases_to!(entries@[i as int] => entries@[i as int].1));
                }
                let key = crate::bytes::bytes_clone(entries[i].0.as_slice());
                let val = json_clone(&entries[i].1);
                out.push((key, val));
                i = i + 1;
            }
            proof {
                lemma_vobj(out@);
                lemma_vobj(entries@);
                assert(vobj(out@) =~= vobj(entries@));
            }
            Json::Obj(out)
        },
    }
}

/// Deep structural equality of documents.
pub fn json_eq(a: &Json, b: &Json) -> (r: bool)
    ensures
        r == (a@ == b@),
    decreases *a,
{
    broadcast use lemma_varr, lemma_vobj;

    match (a, b) {
        (Json::Null, Json::Null) => true,
        (Json::Bool(x), Json::Bool(y)) => x == y,
        (Json::Num(x), Json::Num(y)) => x == y,
        (Json::Str(x), Json::Str(y)) => crate::bytes::bytes_eq(x.as_slice(), y.as_slice()),
        (Json::Arr(xs), Json::Arr(ys)) => {
            proof {
                lemma_varr(xs@);
                lemma_varr(ys@);
            }
            if xs.len() != ys.len() {
                assert(varr(xs@).len() != varr(ys@).len());
                return false;
            }
            let mut i: usize = 0;
            while i < xs.len()
                invariant
                    0 <= i <= xs@.len(),
                    xs@.len() == ys@.len(),
                    forall|k: int| 0 <= k < i ==> jview(xs@[k]) == jview(ys@[k]),
                    *a == Json::Arr(*xs),
                    *b == Json::Arr(*ys),
                decreases xs@.len() - i,
            {
                proof {
                    assert(decreases_to!(*a => (*a)->Arr_0));
                    assert(decreases_to!(*xs => xs@));
                    assert(decreases_to!(xs@ => xs@[i as int]));
                    lemma_varr(xs@);
                    lemma_varr(ys@);
                }
                if !json_eq(&xs[i], &ys[i]) {
                    assert(varr(xs@)[i as int] != varr(ys@)[i as int]);
                    return false;
                }
                i = i + 1;
            }
            proof {
                lemma_varr(xs@);
                lemma_varr(ys@);
                assert(varr(xs@) =~= varr(ys@));
            }
            true
        },
        (Json::Obj(xs), Json::Obj(ys)) => {
            proof {
                lemma_vobj(xs@);
                lemma_vobj(ys@);
            }
            if xs.len() != ys.len() {
                assert(vobj(xs@).len() != vobj(ys@).len());
                return false;
            }
            let mut i: usize = 0;
            while i < xs.len()
                invariant
                    0 <= i <= xs@.len(),
                    xs@.len() == ys@.len(),
                    forall|k: int|
                        0 <= k < i ==> xs@[k].0@ == ys@[k].0@ && jview(xs@[k].1) == jview(
                            ys@[k].1,
                        ),
                    *a == Json::Obj(*xs),
                    *b == Json::Obj(*ys),
                decreases xs@.len() - i,
            {
                proof {
                    assert(decreases_to!(*a => (*a)->Obj_0));
                    assert(decreases_to!(*xs => xs@));
                    assert(decreases_to!(xs@ => xs@[i as int]));
                    assert(decreases_to!(xs@[i as int] => xs@[i as int].1));
                    lemma_vobj(xs@);
                    lemma_vobj(ys@);
                }
                let keys_eq = crate::bytes::bytes_eq(xs[i].0.as_slice(), ys[i].0.as_slice());
                if !keys_eq || !json_eq(&xs[i].1, &ys[i].1) {
                    assert(vobj(xs@)[i as int] != vobj(ys@)[i as int]);
                    return false;
                }
                i = i + 1;
            }
            proof {
                lemma_vobj(xs@);
                lemma_vobj(ys@);
                assert(vobj(xs@) =~= vobj(ys@));
            }
            true
        },
        _ => false,
    }
}

/// Equality on optional values, as the snapshot comparison needs it.
pub fn json_opt_eq(a: Option<&Json>, b: Option<&Json>) -> (r: bool)
    ensures
        r == (match (a, b) {
            (Some(x), Some(y)) => x@ == y@,
            (None, None) => true,
            _ => false,
        }),
{
    match (a, b) {
        (Some(x), Some(y)) => json_eq(x, y),
        (None, None) => true,
        _ => false,
    }
}

} // verus!
