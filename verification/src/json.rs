//! JSON documents as the library reads them: version manifests, loader
//! profiles and remote API replies. A document is parsed outside the library
//! and handed over as a [`Json`] value; the functions here are the lookups
//! the launcher logic makes (`get`, `pointer`, `as_str`, ...), each stated
//! over the document's mathematical view [`JsonV`].
use vstd::prelude::*;
use crate::text::{
    chars_of, digits_value, parse_i64_spec, is_digit, lit, oview, replace, replace_all, slice, split, split_on,
    string_of, views,
};

verus! {

broadcast use vstd::std_specs::vec::axiom_vec_index_decreases;

/// A JSON value; numbers are kept as their decimal text.
pub enum Json {
    Null,
    Bool(bool),
    Number(String),
    Str(String),
    Array(Vec<Json>),
    Object(Vec<(String, Json)>),
}

/// The mathematical view of a JSON value.
pub enum JsonV {
    Null,
    Bool(bool),
    Number(Seq<char>),
    Str(Seq<char>),
    Array(Seq<JsonV>),
    Object(Seq<(Seq<char>, JsonV)>),
}

/// The view of a JSON value, element by element.
pub open spec fn json_view(j: Json) -> JsonV
    decreases j,
{
    match j {
        Json::Null => JsonV::Null,
        Json::Bool(b) => JsonV::Bool(b),
        Json::Number(n) => JsonV::Number(n@),
        Json::Str(s) => JsonV::Str(s@),
        Json::Array(a) => JsonV::Array(
            Seq::new(
                a.len() as nat,
                |i: int|
                    if 0 <= i < a.len() {
                        json_view(a[i])
                    } else {
                        JsonV::Null
                    },
            ),
        ),
        Json::Object(o) => JsonV::Object(
            Seq::new(
                o.len() as nat,
                |i: int|
                    if 0 <= i < o.len() {
                        (o[i].0@, json_view(o[i].1))
                    } else {
                        (Seq::empty(), JsonV::Null)
                    },
            ),
        ),
    }
}

impl View for Json {
    type V = JsonV;

    open spec fn view(&self) -> JsonV {
        json_view(*self)
    }
}

/// The views of a sequence of JSON values.
pub open spec fn json_views(s: Seq<Json>) -> Seq<JsonV> {
    s.map_values(|j: Json| j@)
}

/// `o[i]` is the first member of `o` named `k`.
pub open spec fn first_key_at(o: Seq<(Seq<char>, JsonV)>, k: Seq<char>, i: int) -> bool {
    &&& 0 <= i < o.len()
    &&& o[i].0 == k
    &&& forall|j: int| 0 <= j < i ==> o[j].0 != k
}

/// The value of the first member of `o` named `k`.
pub open spec fn member(o: Seq<(Seq<char>, JsonV)>, k: Seq<char>) -> Option<JsonV> {
    if exists|i: int| first_key_at(o, k, i) {
        Some(o[choose|i: int| first_key_at(o, k, i)].1)
    } else {
        None
    }
}

/// `v.get(k)`: the member `k` of an object; nothing for other values.
pub open spec fn get(v: JsonV, k: Seq<char>) -> Option<JsonV> {
    match v {
        JsonV::Object(o) => member(o, k),
        _ => None,
    }
}

/// `v[k]`: the member `k` of an object, `null` where there is none.
pub open spec fn at(v: JsonV, k: Seq<char>) -> JsonV {
    match get(v, k) {
        Some(x) => x,
        None => JsonV::Null,
    }
}

/// Member lookup along a path of keys (`v.pointer("/k1/k2/...")` for keys
/// that are not array positions).
pub open spec fn get_path(v: JsonV, keys: Seq<Seq<char>>) -> Option<JsonV>
    decreases keys.len(),
{
    if keys.len() == 0 {
        Some(v)
    } else {
        match get(v, keys[0]) {
            Some(x) => get_path(x, keys.drop_first()),
            None => None,
        }
    }
}

/// The optional member `k` of an optional value (`o.and_then(|v| v.get(k))`).
pub open spec fn get_opt(v: Option<JsonV>, k: Seq<char>) -> Option<JsonV> {
    match v {
        Some(x) => get(x, k),
        None => None,
    }
}

/// `v.as_str()`.
pub open spec fn as_str(v: JsonV) -> Option<Seq<char>> {
    match v {
        JsonV::Str(s) => Some(s),
        _ => None,
    }
}

/// `v.and_then(|x| x.as_str())`.
pub open spec fn str_of(v: Option<JsonV>) -> Option<Seq<char>> {
    match v {
        Some(x) => as_str(x),
        None => None,
    }
}

/// `v.as_u64()`: a number written with decimal digits only whose value
/// fits in 64 bits.
pub open spec fn as_u64(v: JsonV) -> Option<u64> {
    match v {
        JsonV::Number(t) => if t.len() > 0 && (forall|i: int| 0 <= i < t.len() ==> is_digit(#[trigger] t[i]))
            && digits_value(t) <= u64::MAX {
            Some(digits_value(t) as u64)
        } else {
            None
        },
        _ => None,
    }
}

/// `v.as_i64()`: a number written as an integer (an optional `-` then
/// decimal digits) whose value fits in 64 signed bits.
pub open spec fn as_i64(v: JsonV) -> Option<i64> {
    match v {
        JsonV::Number(t) => if t.len() > 0 && t[0] != '+' {
            parse_i64_spec(t)
        } else {
            None
        },
        _ => None,
    }
}

/// `v.as_bool()`.
pub open spec fn as_bool(v: JsonV) -> Option<bool> {
    match v {
        JsonV::Bool(b) => Some(b),
        _ => None,
    }
}

/// `v.as_array()`.
pub open spec fn as_array(v: JsonV) -> Option<Seq<JsonV>> {
    match v {
        JsonV::Array(a) => Some(a),
        _ => None,
    }
}

/// `v.and_then(|x| x.as_array())`.
pub open spec fn array_of(v: Option<JsonV>) -> Option<Seq<JsonV>> {
    match v {
        Some(x) => as_array(x),
        None => None,
    }
}

/// `v.as_object()`, as its list of members.
pub open spec fn as_object(v: JsonV) -> Option<Seq<(Seq<char>, JsonV)>> {
    match v {
        JsonV::Object(o) => Some(o),
        _ => None,
    }
}

pub proof fn lemma_array_view(a: Vec<Json>)
    ensures
        json_view(Json::Array(a)) == JsonV::Array(json_views(a@)),
{
    let v = json_view(Json::Array(a));
    assert(v->Array_0 =~= json_views(a@));
}

pub proof fn lemma_object_view(o: Vec<(String, Json)>)
    ensures
        json_view(Json::Object(o)) matches JsonV::Object(m) && m.len() == o.len() && forall|
            i: int,
        |
            0 <= i < o.len() ==> #[trigger] m[i] == (o@[i].0@, o@[i].1@),
{
}

/// The array position a pointer token names (serde_json's rule: no sign,
/// no leading zero, decimal digits whose value fits in `usize`).
pub open spec fn array_index(t: Seq<char>) -> Option<int> {
    if t.len() == 0 || t[0] == '+' || (t[0] == '0' && t.len() != 1) {
        None
    } else if (forall|i: int| 0 <= i < t.len() ==> is_digit(#[trigger] t[i])) && digits_value(t)
        <= usize::MAX {
        Some(digits_value(t) as int)
    } else {
        None
    }
}

/// A pointer token with its escapes undone (`~1` is `/`, then `~0` is `~`).
pub open spec fn unescape(t: Seq<char>) -> Seq<char> {
    replace(replace(t, seq!['~', '1'], seq!['/']), seq!['~', '0'], seq!['~'])
}

/// One step of a JSON pointer: a member of an object, or a position of an array.
pub open spec fn step_into(v: JsonV, token: Seq<char>) -> Option<JsonV> {
    match v {
        JsonV::Object(o) => member(o, token),
        JsonV::Array(a) => match array_index(token) {
            Some(i) => if i < a.len() {
                Some(a[i])
            } else {
                None
            },
            None => None,
        },
        _ => None,
    }
}

pub open spec fn walk(v: JsonV, tokens: Seq<Seq<char>>) -> Option<JsonV>
    decreases tokens.len(),
{
    if tokens.len() == 0 {
        Some(v)
    } else {
        match step_into(v, unescape(tokens[0])) {
            Some(x) => walk(x, tokens.drop_first()),
            None => None,
        }
    }
}

/// `v.pointer(path)`: the value a JSON pointer (RFC 6901) names.
pub open spec fn pointer(v: JsonV, path: Seq<char>) -> Option<JsonV> {
    if path.len() == 0 {
        Some(v)
    } else if path[0] != '/' {
        None
    } else {
        walk(v, split(path.drop_first(), '/'))
    }
}

/// The array position `t` names, if any (see [`array_index`]).
pub fn parse_index(t: &Vec<char>) -> (r: Option<usize>)
    ensures
        match r {
            Some(i) => array_index(t@) == Some(i as int),
            None => array_index(t@) is None,
        },
{
    if t.len() == 0 || t[0] == '+' || (t[0] == '0' && t.len() != 1) {
        return None;
    }
    let mut acc: usize = 0;
    let mut i: usize = 0;
    while i < t.len()
        invariant
            i <= t.len(),
            forall|j: int| 0 <= j < i ==> is_digit(#[trigger] t@[j]),
            acc == digits_value(t@.take(i as int)),
        decreases t.len() - i,
    {
        let u = t[i] as u32;
        if !(48 <= u && u <= 57) {
            assert(!is_digit(t@[i as int]));
            return None;
        }
        assert(t@.take(i + 1).drop_last() =~= t@.take(i as int));
        let d = (u - 48) as usize;
        let next = match acc.checked_mul(10) {
            Some(m) => m.checked_add(d),
            None => None,
        };
        match next {
            Some(n) => {
                acc = n;
            },
            None => {
                proof {
                    assert forall|j: int| 0 <= j < i + 1 implies is_digit(#[trigger] t@.take(i + 1)[j]) by {
                        assert(t@.take(i + 1)[j] == t@[j]);
                    }
                    if forall|j: int| 0 <= j < t.len() ==> is_digit(#[trigger] t@[j]) {
                        crate::text::lemma_digits_value_grows(t@, i + 1);
                        assert(digits_value(t@.take(i + 1)) == acc * 10 + d);
                    }
                }
                return None;
            },
        }
        i += 1;
    }
    assert(t@.take(t.len() as int) =~= t@);
    Some(acc)
}

impl Json {
    /// `self.get(key)`: the member `key` of an object.
    pub fn get(&self, key: &str) -> (r: Option<&Json>)
        ensures
            match r {
                Some(x) => get(self@, key@) == Some(x@),
                None => get(self@, key@) is None,
            },
    {
        match self {
            Json::Object(o) => {
                proof {
                    lemma_object_view(*o);
                }
                let ghost m = self@->Object_0;
                let mut i: usize = 0;
                while i < o.len()
                    invariant
                        i <= o.len(),
                        self@ == JsonV::Object(m),
                        m.len() == o.len(),
                        forall|k: int| 0 <= k < o.len() ==> #[trigger] m[k] == (o@[k].0@, o@[k].1@),
                        forall|j: int| 0 <= j < i ==> m[j].0 != key@,
                    decreases o.len() - i,
                {
                    if crate::text::str_eq(o[i].0.as_str(), key) {
                        assert(first_key_at(m, key@, i as int));
                        let ghost c = choose|c: int| first_key_at(m, key@, c);
                        assert(c == i) by {
                            if c < i {
                            } else if c > i {
                                assert(m[i as int].0 == key@);
                            }
                        }
                        return Some(&o[i].1);
                    }
                    i += 1;
                }
                None
            },
            _ => None,
        }
    }

    /// The member at the end of a path of keys (see [`get_path`]).
    pub fn get_path(&self, keys: &[&str]) -> (r: Option<&Json>)
        ensures
            match r {
                Some(x) => get_path(self@, keys@.map_values(|k: &str| k@)) == Some(x@),
                None => get_path(self@, keys@.map_values(|k: &str| k@)) is None,
            },
    {
        let ghost ks = keys@.map_values(|k: &str| k@);
        let mut cur: &Json = self;
        let mut i: usize = 0;
        assert(ks.skip(0) =~= ks);
        while i < keys.len()
            invariant
                i <= keys.len(),
                ks == keys@.map_values(|k: &str| k@),
                get_path(self@, ks) == get_path(cur@, ks.skip(i as int)),
            decreases keys.len() - i,
        {
            assert(ks.skip(i as int).drop_first() =~= ks.skip(i + 1));
            match cur.get(keys[i]) {
                Some(next) => {
                    cur = next;
                },
                None => {
                    return None;
                },
            }
            i += 1;
        }
        assert(ks.skip(i as int).len() == 0);
        Some(cur)
    }

    /// One step of a pointer (see [`step_into`]).
    pub fn step(&self, token: &Vec<char>) -> (r: Option<&Json>)
        ensures
            match r {
                Some(x) => step_into(self@, token@) == Some(x@),
                None => step_into(self@, token@) is None,
            },
    {
        match self {
            Json::Object(_) => self.get(string_of(token).as_str()),
            Json::Array(a) => {
                proof {
                    lemma_array_view(*a);
                }
                match parse_index(token) {
                    Some(i) => if i < a.len() {
                        Some(&a[i])
                    } else {
                        None
                    },
                    None => None,
                }
            },
            _ => None,
        }
    }

    /// `self.pointer(path)`: the value a JSON pointer names (see [`pointer`]).
    pub fn pointer(&self, path: &str) -> (r: Option<&Json>)
        ensures
            match r {
                Some(x) => pointer(self@, path@) == Some(x@),
                None => pointer(self@, path@) is None,
            },
    {
        let pv = chars_of(path);
        if pv.len() == 0 {
            return Some(self);
        }
        if pv[0] != '/' {
            return None;
        }
        let rest = slice(&pv, 1, pv.len());
        assert(rest@ =~= path@.drop_first());
        let tokens = split_on(&rest, '/');
        let ghost ts = views(tokens@);
        let tilde_one = vec!['~', '1'];
        let slash = vec!['/'];
        let tilde_zero = vec!['~', '0'];
        let tilde = vec!['~'];
        let mut cur: &Json = self;
        let mut i: usize = 0;
        assert(ts.skip(0) =~= ts);
        while i < tokens.len()
            invariant
                i <= tokens.len(),
                path@.len() > 0,
                path@[0] == '/',
                ts == views(tokens@),
                ts == split(path@.drop_first(), '/'),
                tilde_one@ == seq!['~', '1'],
                slash@ == seq!['/'],
                tilde_zero@ == seq!['~', '0'],
                tilde@ == seq!['~'],
                walk(self@, ts) == walk(cur@, ts.skip(i as int)),
            decreases tokens.len() - i,
        {
            assert(ts.skip(i as int).drop_first() =~= ts.skip(i + 1));
            assert(ts.skip(i as int)[0] == tokens@[i as int]@);
            let t = replace_all(&replace_all(&tokens[i], &tilde_one, &slash), &tilde_zero, &tilde);
            match cur.step(&t) {
                Some(next) => {
                    cur = next;
                },
                None => {
                    return None;
                },
            }
            i += 1;
        }
        Some(cur)
    }

    /// `self.as_str()`.
    pub fn as_str(&self) -> (r: Option<&str>)
        ensures
            match r {
                Some(s) => as_str(self@) == Some(s@),
                None => as_str(self@) is None,
            },
    {
        match self {
            Json::Str(s) => Some(s.as_str()),
            _ => None,
        }
    }

    /// `self.as_u64()`.
    pub fn as_u64(&self) -> (r: Option<u64>)
        ensures
            r == as_u64(self@),
    {
        let t = match self {
            Json::Number(n) => chars_of(n.as_str()),
            _ => {
                return None;
            },
        };
        if t.len() == 0 {
            return None;
        }
        let mut acc: u64 = 0;
        let mut i: usize = 0;
        while i < t.len()
            invariant
                i <= t.len(),
                t.len() > 0,
                self@ == JsonV::Number(t@),
                forall|j: int| 0 <= j < i ==> is_digit(#[trigger] t@[j]),
                acc == digits_value(t@.take(i as int)),
            decreases t.len() - i,
        {
            let u = t[i] as u32;
            if !(48 <= u && u <= 57) {
                assert(!is_digit(t@[i as int]));
                return None;
            }
            assert(t@.take(i + 1).drop_last() =~= t@.take(i as int));
            let d = (u - 48) as u64;
            let next = match acc.checked_mul(10) {
                Some(m) => m.checked_add(d),
                None => None,
            };
            match next {
                Some(n) => {
                    acc = n;
                },
                None => {
                    proof {
                        assert forall|j: int| 0 <= j < i + 1 implies is_digit(#[trigger] t@.take(i + 1)[j]) by {
                            assert(t@.take(i + 1)[j] == t@[j]);
                        }
                        if forall|j: int| 0 <= j < t.len() ==> is_digit(#[trigger] t@[j]) {
                            crate::text::lemma_digits_value_grows(t@, i + 1);
                            assert(digits_value(t@.take(i + 1)) == acc * 10 + d);
                        }
                    }
                    return None;
                },
            }
            i += 1;
        }
        assert(t@.take(t.len() as int) =~= t@);
        Some(acc)
    }

    /// `self.as_i64()`.
    pub fn as_i64(&self) -> (r: Option<i64>)
        ensures
            r == as_i64(self@),
    {
        match self {
            Json::Number(n) => {
                let t = chars_of(n.as_str());
                if t.len() == 0 || t[0] == '+' {
                    None
                } else {
                    crate::text::parse_i64(n.as_str())
                }
            },
            _ => None,
        }
    }

    /// `self.as_bool()`.
    pub fn as_bool(&self) -> (r: Option<bool>)
        ensures
            r == as_bool(self@),
    {
        match self {
            Json::Bool(b) => Some(*b),
            _ => None,
        }
    }

    /// `self.as_array()`.
    pub fn as_array(&self) -> (r: Option<&Vec<Json>>)
        ensures
            match r {
                Some(a) => as_array(self@) == Some(json_views(a@)),
                None => as_array(self@) is None,
            },
    {
        match self {
            Json::Array(a) => {
                proof {
                    lemma_array_view(*a);
                }
                Some(a)
            },
            _ => None,
        }
    }

    /// `self.as_object()`, as its list of members.
    pub fn as_object(&self) -> (r: Option<&Vec<(String, Json)>>)
        ensures
            match r {
                Some(o) => as_object(self@) matches Some(m) && m.len() == o.len() && forall|
                    i: int,
                |
                    0 <= i < o.len() ==> #[trigger] m[i] == (o@[i].0@, o@[i].1@),
                None => as_object(self@) is None,
            },
    {
        match self {
            Json::Object(o) => {
                proof {
                    lemma_object_view(*o);
                }
                Some(o)
            },
            _ => None,
        }
    }
}

/// Whether two JSON values are equal (`==` on `serde_json::Value`).
pub fn same(a: &Json, b: &Json) -> (r: bool)
    ensures
        r == (a@ == b@),
    decreases a,
{
    match (a, b) {
        (Json::Null, Json::Null) => true,
        (Json::Bool(x), Json::Bool(y)) => *x == *y,
        (Json::Number(x), Json::Number(y)) => crate::text::str_eq(x.as_str(), y.as_str()),
        (Json::Str(x), Json::Str(y)) => crate::text::str_eq(x.as_str(), y.as_str()),
        (Json::Array(x), Json::Array(y)) => {
            proof {
                lemma_array_view(*x);
                lemma_array_view(*y);
            }
            if x.len() != y.len() {
                assert(json_views(x@).len() != json_views(y@).len());
                return false;
            }
            let mut i: usize = 0;
            while i < x.len()
                invariant
                    x.len() == y.len(),
                    i <= x.len(),
                    a@ == JsonV::Array(json_views(x@)),
                    b@ == JsonV::Array(json_views(y@)),
                    forall|j: int| 0 <= j < i ==> x@[j]@ == y@[j]@,
                    forall|j: int| 0 <= j < x.len() ==> decreases_to!(*a => #[trigger] x@[j]),
                decreases x.len() - i,
            {
                if !same(&x[i], &y[i]) {
                    assert(json_views(x@)[i as int] != json_views(y@)[i as int]);
                    return false;
                }
                i += 1;
            }
            assert(json_views(x@) =~= json_views(y@));
            true
        },
        (Json::Object(x), Json::Object(y)) => {
            proof {
                lemma_object_view(*x);
                lemma_object_view(*y);
            }
            let ghost mx = a@->Object_0;
            let ghost my = b@->Object_0;
            if x.len() != y.len() {
                return false;
            }
            let mut i: usize = 0;
            while i < x.len()
                invariant
                    x.len() == y.len(),
                    i <= x.len(),
                    a@ == JsonV::Object(mx),
                    b@ == JsonV::Object(my),
                    mx.len() == x.len(),
                    my.len() == y.len(),
                    forall|k: int| 0 <= k < x.len() ==> #[trigger] mx[k] == (x@[k].0@, x@[k].1@),
                    forall|k: int| 0 <= k < y.len() ==> #[trigger] my[k] == (y@[k].0@, y@[k].1@),
                    forall|j: int| 0 <= j < i ==> mx[j] == my[j],
                    forall|j: int| 0 <= j < x.len() ==> decreases_to!(*a => #[trigger] x@[j].1),
                decreases x.len() - i,
            {
                if !crate::text::str_eq(x[i].0.as_str(), y[i].0.as_str()) {
                    assert(mx[i as int] != my[i as int]);
                    return false;
                }
                if !same(&x[i].1, &y[i].1) {
                    assert(mx[i as int] != my[i as int]);
                    return false;
                }
                i += 1;
            }
            assert(mx =~= my);
            true
        },
        _ => false,
    }
}

/// The text of an optional string, or `d`.
pub open spec fn str_or(o: Option<Seq<char>>, d: Seq<char>) -> Seq<char> {
    match o {
        Some(s) => s,
        None => d,
    }
}

/// The string items of a list, in order.
pub open spec fn strings_in(items: Seq<JsonV>) -> Seq<Seq<char>>
    decreases items.len(),
{
    if items.len() == 0 {
        Seq::empty()
    } else {
        strings_in(items.drop_last()) + match as_str(items.last()) {
            Some(s) => seq![s],
            None => Seq::empty(),
        }
    }
}

/// The string items of the list member `key` of `v`; none when it is not a list.
pub open spec fn string_array_of(v: JsonV, key: Seq<char>) -> Seq<Seq<char>> {
    match array_of(get(v, key)) {
        Some(items) => strings_in(items),
        None => Seq::empty(),
    }
}

/// `v.get(key).and_then(|s| s.as_str()).map(|s| s.to_string())`.
pub fn str_field(v: &Json, key: &str) -> (r: Option<String>)
    ensures
        oview(r) == str_of(get(v@, key@)),
{
    match v.get(key) {
        Some(x) => match x.as_str() {
            Some(s) => Some(lit(s)),
            None => None,
        },
        None => None,
    }
}

/// The string member `key` of `v`, or `default`.
pub fn str_field_or(v: &Json, key: &str, default: &str) -> (r: String)
    ensures
        r@ == str_or(str_of(get(v@, key@)), default@),
{
    match str_field(v, key) {
        Some(s) => s,
        None => lit(default),
    }
}

/// The unsigned member `key` of `v`, or 0.
pub fn u64_field(v: &Json, key: &str) -> (r: u64)
    ensures
        r == match get(v@, key@) {
            Some(x) => match as_u64(x) {
                Some(n) => n,
                None => 0,
            },
            None => 0,
        },
{
    match v.get(key) {
        Some(x) => match x.as_u64() {
            Some(n) => n,
            None => 0,
        },
        None => 0,
    }
}

/// The boolean member `key` of `v`, false when absent.
pub fn bool_field(v: &Json, key: &str) -> (r: bool)
    ensures
        r == (match get(v@, key@) {
            Some(x) => as_bool(x),
            None => None,
        } == Some(true)),
{
    match v.get(key) {
        Some(x) => x.as_bool() == Some(true),
        None => false,
    }
}

/// The string items of a list, copied.
pub fn strings_of(items: &Vec<Json>) -> (r: Vec<String>)
    ensures
        r@.map_values(|s: String| s@) == strings_in(json_views(items@)),
{
    let ghost vs = json_views(items@);
    let mut r: Vec<String> = Vec::new();
    let mut i: usize = 0;
    assert(r@.map_values(|s: String| s@) =~= strings_in(vs.take(0)));
    while i < items.len()
        invariant
            i <= items.len(),
            vs == json_views(items@),
            r@.map_values(|s: String| s@) == strings_in(vs.take(i as int)),
        decreases items.len() - i,
    {
        assert(vs.take(i + 1).drop_last() =~= vs.take(i as int));
        assert(vs.take(i + 1).last() == items@[i as int]@);
        let ghost before = r@;
        match items[i].as_str() {
            Some(s) => {
                r.push(lit(s));
                assert(r@.map_values(|s: String| s@) =~= before.map_values(|s: String| s@).push(s@));
            },
            None => {},
        }
        i += 1;
    }
    assert(vs.take(items.len() as int) =~= vs);
    r
}

/// The string items of the list member `key` of `v`.
pub fn string_array(v: &Json, key: &str) -> (r: Vec<String>)
    ensures
        r@.map_values(|s: String| s@) == string_array_of(v@, key@),
{
    match v.get(key) {
        Some(x) => match x.as_array() {
            Some(a) => strings_of(a),
            None => {
                let r: Vec<String> = Vec::new();
                assert(r@.map_values(|s: String| s@) =~= Seq::<Seq<char>>::empty());
                r
            },
        },
        None => {
            let r: Vec<String> = Vec::new();
            assert(r@.map_values(|s: String| s@) =~= Seq::<Seq<char>>::empty());
            r
        },
    }
}

/// A list of strings as JSON text items.
pub open spec fn str_items(s: Seq<Seq<char>>) -> Seq<JsonV>
    decreases s.len(),
{
    if s.len() == 0 {
        Seq::empty()
    } else {
        str_items(s.drop_last()).push(JsonV::Str(s.last()))
    }
}

/// A JSON array of copies of the given strings.
pub fn string_list(v: &Vec<String>) -> (r: Json)
    ensures
        r@ == JsonV::Array(str_items(v@.map_values(|s: String| s@))),
{
    let ghost sv = v@.map_values(|s: String| s@);
    let mut items: Vec<Json> = Vec::new();
    let mut i: usize = 0;
    while i < v.len()
        invariant
            i <= v.len(),
            sv == v@.map_values(|s: String| s@),
            json_views(items@) == str_items(sv.take(i as int)),
        decreases v.len() - i,
    {
        assert(sv.take(i + 1).drop_last() =~= sv.take(i as int));
        let ghost before = json_views(items@);
        items.push(Json::Str(v[i].clone()));
        assert(json_views(items@) =~= before.push(JsonV::Str(sv[i as int])));
        i += 1;
    }
    assert(sv.take(v.len() as int) =~= sv);
    proof {
        lemma_array_view(items);
    }
    Json::Array(items)
}

/// A JSON object of the given members, in order.
pub fn object_of(members: Vec<(String, Json)>) -> (r: Json)
    ensures
        r@ == JsonV::Object(members@.map_values(|p: (String, Json)| (p.0@, p.1@))),
{
    proof {
        lemma_object_view(members);
    }
    let r = Json::Object(members);
    assert(r@->Object_0 =~= members@.map_values(|p: (String, Json)| (p.0@, p.1@)));
    r
}

} // verus!
