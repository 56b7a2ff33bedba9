//! JSON values: the documents that configurations, workflow contexts and
//! requests are made of.
//!
//! `Value` is the executable tree. `Json` is its mathematical counterpart, over
//! which every contract of the library is stated. An object is a list of
//! entries; `Value::set` keeps the entries in key order, so that two objects
//! with the same contents are the same tree.
use crate::text;
use vstd::prelude::*;

verus! {

/// A JSON number: an integer, or a floating-point number held by its IEEE 754
/// bit pattern.
#[derive(Debug, Clone, Copy, PartialEq, Eq, Structural)]
pub enum Number {
    PosInt(u64),
    NegInt(i64),
    Float(u64),
}

impl Number {
    /// One of the two zeros of floating-point numbers.
    pub open spec fn is_float_zero(self) -> bool {
        self == Number::Float(0) || self == Number::Float(0x8000_0000_0000_0000)
    }

    fn float_zero(self) -> (r: bool)
        ensures
            r == self.is_float_zero(),
    {
        match self {
            Number::Float(bits) => bits == 0 || bits == 0x8000_0000_0000_0000,
            _ => false,
        }
    }
}

/// An executable JSON value.
#[derive(Debug, PartialEq)]
pub enum Value {
    Null,
    Bool(bool),
    Number(Number),
    String(String),
    Array(Vec<Value>),
    Object(Vec<(String, Value)>),
}

/// A JSON value as a mathematical tree.
#[verifier::ext_equal]
pub enum Json {
    Null,
    Bool(bool),
    Number(Number),
    String(Seq<char>),
    Array(Seq<Json>),
    Object(Seq<(Seq<char>, Json)>),
}

/// The trees of a sequence of values.
pub open spec fn views(s: Seq<Value>) -> Seq<Json>
    decreases s,
{
    Seq::new(
        s.len(),
        |i: int|
            if 0 <= i < s.len() {
                s[i].view()
            } else {
                Json::Null
            },
    )
}

/// The trees of a sequence of object entries.
pub open spec fn entries(s: Seq<(String, Value)>) -> Seq<(Seq<char>, Json)>
    decreases s,
{
    Seq::new(
        s.len(),
        |i: int|
            if 0 <= i < s.len() {
                (s[i].0@, s[i].1.view())
            } else {
                (Seq::empty(), Json::Null)
            },
    )
}

/// The tree of an optional value.
pub open spec fn opt_view(o: Option<&Value>) -> Option<Json> {
    match o {
        Some(v) => Some(v.view()),
        None => None,
    }
}

/// The tree of an optional owned value.
pub open spec fn opt_owned_view(o: Option<Value>) -> Option<Json> {
    match o {
        Some(v) => Some(v.view()),
        None => None,
    }
}

/// The value of the first entry with the given key.
pub open spec fn find<V>(e: Seq<(Seq<char>, V)>, key: Seq<char>) -> Option<V>
    decreases e.len(),
{
    if e.len() == 0 {
        None
    } else if e[0].0 == key {
        Some(e[0].1)
    } else {
        find(e.skip(1), key)
    }
}

/// The entries with `key` bound to `v`: replaced where the key stands, placed
/// before the first greater key otherwise.
pub open spec fn put<V>(e: Seq<(Seq<char>, V)>, key: Seq<char>, v: V) -> Seq<(Seq<char>, V)>
    decreases e.len(),
{
    if e.len() == 0 {
        seq![(key, v)]
    } else if e[0].0 == key {
        seq![(key, v)] + e.skip(1)
    } else if text::text_lt(key, e[0].0) {
        seq![(key, v)] + e
    } else {
        seq![e[0]] + put(e.skip(1), key, v)
    }
}

/// The entries without the first one that has the given key.
pub open spec fn without<V>(e: Seq<(Seq<char>, V)>, key: Seq<char>) -> Seq<(Seq<char>, V)>
    decreases e.len(),
{
    if e.len() == 0 {
        e
    } else if e[0].0 == key {
        e.skip(1)
    } else {
        seq![e[0]] + without(e.skip(1), key)
    }
}

/// The keys stand in strictly increasing order.
pub open spec fn sorted<V>(e: Seq<(Seq<char>, V)>) -> bool {
    forall|i: int, j: int| 0 <= i < j < e.len() ==> text::text_lt(#[trigger] e[i].0, #[trigger] e[j].0)
}

/// The token that a pointer segment stands for: `~1` is `/`, `~0` is `~`.
pub open spec fn unescaped(token: Seq<char>) -> Seq<char> {
    text::replaced(text::replaced(token, "~1"@, "/"@), "~0"@, "~"@)
}

impl Json {
    /// The value under a key of an object.
    #[verifier::opaque]
    pub open spec fn get(self, key: Seq<char>) -> Option<Json> {
        match self {
            Json::Object(e) => find(e, key),
            _ => None,
        }
    }

    /// Whether this is an object that holds the key.
    pub open spec fn has(self, key: Seq<char>) -> bool {
        self.get(key) is Some
    }

    /// The text of a string.
    pub open spec fn as_str(self) -> Option<Seq<char>> {
        match self {
            Json::String(s) => Some(s),
            _ => None,
        }
    }

    /// The items of an array.
    pub open spec fn as_array(self) -> Option<Seq<Json>> {
        match self {
            Json::Array(s) => Some(s),
            _ => None,
        }
    }

    /// The entries of an object.
    pub open spec fn as_object(self) -> Option<Seq<(Seq<char>, Json)>> {
        match self {
            Json::Object(e) => Some(e),
            _ => None,
        }
    }

    /// The truth value of a boolean.
    pub open spec fn as_bool(self) -> Option<bool> {
        match self {
            Json::Bool(b) => Some(b),
            _ => None,
        }
    }

    /// The number, when it is a non-negative integer.
    pub open spec fn as_u64(self) -> Option<u64> {
        match self {
            Json::Number(Number::PosInt(n)) => Some(n),
            _ => None,
        }
    }

    /// The text under a key.
    pub open spec fn str_at(self, key: Seq<char>) -> Option<Seq<char>> {
        match self.get(key) {
            Some(v) => v.as_str(),
            None => None,
        }
    }

    /// The items of the array under a key.
    pub open spec fn array_at(self, key: Seq<char>) -> Option<Seq<Json>> {
        match self.get(key) {
            Some(v) => v.as_array(),
            None => None,
        }
    }

    /// The entries of the object under a key.
    pub open spec fn object_at(self, key: Seq<char>) -> Option<Seq<(Seq<char>, Json)>> {
        match self.get(key) {
            Some(v) => v.as_object(),
            None => None,
        }
    }

    /// The truth value under a key.
    pub open spec fn bool_at(self, key: Seq<char>) -> Option<bool> {
        match self.get(key) {
            Some(v) => v.as_bool(),
            None => None,
        }
    }

    /// The non-negative integer under a key.
    pub open spec fn u64_at(self, key: Seq<char>) -> Option<u64> {
        match self.get(key) {
            Some(v) => v.as_u64(),
            None => None,
        }
    }

    /// The items under a key; none when there is no array.
    pub open spec fn items_at(self, key: Seq<char>) -> Seq<Json> {
        match self.array_at(key) {
            Some(s) => s,
            None => Seq::empty(),
        }
    }

    /// The entries under a key; none when there is no object.
    pub open spec fn entries_at(self, key: Seq<char>) -> Seq<(Seq<char>, Json)> {
        match self.object_at(key) {
            Some(s) => s,
            None => Seq::empty(),
        }
    }

    /// The object without entries.
    pub open spec fn empty() -> Json {
        Json::Object(Seq::empty())
    }

    /// The object with a key bound to a value; anything else unchanged.
    #[verifier::opaque]
    pub open spec fn with(self, key: Seq<char>, v: Json) -> Json {
        match self {
            Json::Object(e) => Json::Object(put(e, key, v)),
            other => other,
        }
    }

    /// The object without a key; anything else unchanged.
    #[verifier::opaque]
    pub open spec fn minus(self, key: Seq<char>) -> Json {
        match self {
            Json::Object(e) => Json::Object(without(e, key)),
            other => other,
        }
    }

    /// One step of a pointer walk: a key of an object or a position of an array.
    #[verifier::opaque]
    pub open spec fn step(self, token: Seq<char>) -> Option<Json> {
        match self {
            Json::Object(e) => find(e, token),
            Json::Array(s) => match text::array_index(token) {
                Some(n) => if n < s.len() {
                    Some(s[n as int])
                } else {
                    None
                },
                None => None,
            },
            _ => None,
        }
    }

    /// A pointer walk along escaped tokens, from token `n` on.
    pub open spec fn walk(self, tokens: Seq<Seq<char>>, n: int) -> Option<Json>
        decreases tokens.len() - n,
    {
        if n >= tokens.len() {
            Some(self)
        } else {
            match self.step(unescaped(tokens[n])) {
                Some(v) => v.walk(tokens, n + 1),
                None => None,
            }
        }
    }

    /// The value that a JSON pointer leads to.
    #[verifier::opaque]
    pub open spec fn pointer(self, ptr: Seq<char>) -> Option<Json> {
        if ptr.len() == 0 {
            Some(self)
        } else if ptr[0] != '/' {
            None
        } else {
            self.walk(text::split(ptr, '/'), 1)
        }
    }

    /// Two trees compare as equal: they are the same, where the two zeros of
    /// floating-point numbers count as one.
    pub open spec fn alike(self, other: Json) -> bool
        decreases self,
    {
        match (self, other) {
            (Json::Number(a), Json::Number(b)) => a == b || (a.is_float_zero()
                && b.is_float_zero()),
            (Json::Array(a), Json::Array(b)) => a.len() == b.len() && forall|i: int|
                0 <= i < a.len() ==> (#[trigger] a[i]).alike(b[i]),
            (Json::Object(a), Json::Object(b)) => a.len() == b.len() && forall|i: int|
                0 <= i < a.len() ==> (#[trigger] a[i]).0 == b[i].0 && a[i].1.alike(b[i].1),
            _ => self == other,
        }
    }

    /// Every object in the tree has its keys in strictly increasing order.
    pub open spec fn wf(self) -> bool
        decreases self,
    {
        match self {
            Json::Array(s) => forall|i: int| 0 <= i < s.len() ==> (#[trigger] s[i]).wf(),
            Json::Object(e) => sorted(e) && forall|i: int|
                0 <= i < e.len() ==> (#[trigger] e[i]).1.wf(),
            _ => true,
        }
    }
}

impl Value {
    /// The tree of the value.
    pub open spec fn view(&self) -> Json
        decreases self,
    {
        match self {
            Value::Null => Json::Null,
            Value::Bool(b) => Json::Bool(*b),
            Value::Number(n) => Json::Number(*n),
            Value::String(s) => Json::String(s@),
            Value::Array(v) => Json::Array(views(v@)),
            Value::Object(v) => Json::Object(entries(v@)),
        }
    }

    /// A copy of the value.
    pub fn dup(&self) -> (r: Value)
        ensures
            r@ == self@,
        decreases self,
    {
        match self {
            Value::Null => Value::Null,
            Value::Bool(b) => Value::Bool(*b),
            Value::Number(n) => Value::Number(*n),
            Value::String(s) => Value::String(s.clone()),
            Value::Array(v) => {
                let mut out: Vec<Value> = Vec::new();
                let mut i: usize = 0;
                while i < v.len()
                    invariant
                        i <= v.len(),
                        *self == Value::Array(*v),
                        out.len() == i,
                        forall|j: int| 0 <= j < i ==> (#[trigger] out@[j])@ == v@[j]@,
                    decreases v.len() - i,
                {
                    proof {
                        assert(decreases_to!(*self => self->Array_0));
                        assert(decreases_to!(*v => v@));
                        assert(decreases_to!(v@ => v@[i as int]));
                    }
                    let c = v[i].dup();
                    out.push(c);
                    i = i + 1;
                }
                assert(views(out@) =~= views(v@));
                Value::Array(out)
            },
            Value::Object(v) => {
                let mut out: Vec<(String, Value)> = Vec::new();
                let mut i: usize = 0;
                while i < v.len()
                    invariant
                        i <= v.len(),
                        *self == Value::Object(*v),
                        out.len() == i,
                        forall|j: int|
                            0 <= j < i ==> (#[trigger] out@[j]).0@ == v@[j].0@ && out@[j].1@
                                == v@[j].1@,
                    decreases v.len() - i,
                {
                    proof {
                        assert(decreases_to!(*self => self->Object_0));
                        assert(decreases_to!(*v => v@));
                        assert(decreases_to!(v@ => v@[i as int]));
                        assert(decreases_to!(v@[i as int] => v@[i as int].1));
                    }
                    let k = v[i].0.clone();
                    let c = v[i].1.dup();
                    out.push((k, c));
                    i = i + 1;
                }
                assert(entries(out@) =~= entries(v@));
                Value::Object(out)
            },
        }
    }

    /// Whether two values are the same tree.
    pub fn same(&self, other: &Value) -> (r: bool)
        ensures
            r == (self@ == other@),
        decreases self,
    {
        match (self, other) {
            (Value::Null, Value::Null) => true,
            (Value::Bool(a), Value::Bool(b)) => *a == *b,
            (Value::Number(a), Value::Number(b)) => *a == *b,
            (Value::String(a), Value::String(b)) => text::str_eq(a.as_str(), b.as_str()),
            (Value::Array(a), Value::Array(b)) => {
                if a.len() != b.len() {
                    assert(views(a@).len() != views(b@).len());
                    return false;
                }
                let mut i: usize = 0;
                while i < a.len()
                    invariant
                        i <= a.len(),
                        a.len() == b.len(),
                        *self == Value::Array(*a),
                        *other == Value::Array(*b),
                        forall|j: int| 0 <= j < i ==> (#[trigger] a@[j])@ == b@[j]@,
                    decreases a.len() - i,
                {
                    proof {
                        assert(decreases_to!(*self => self->Array_0));
                        assert(decreases_to!(*a => a@));
                        assert(decreases_to!(a@ => a@[i as int]));
                    }
                    if !a[i].same(&b[i]) {
                        assert(views(a@)[i as int] != views(b@)[i as int]);
                        return false;
                    }
                    i = i + 1;
                }
                assert(views(a@) =~= views(b@));
                true
            },
            (Value::Object(a), Value::Object(b)) => {
                if a.len() != b.len() {
                    assert(entries(a@).len() != entries(b@).len());
                    return false;
                }
                let mut i: usize = 0;
                while i < a.len()
                    invariant
                        i <= a.len(),
                        a.len() == b.len(),
                        *self == Value::Object(*a),
                        *other == Value::Object(*b),
                        forall|j: int|
                            0 <= j < i ==> (#[trigger] a@[j]).0@ == b@[j].0@ && a@[j].1@
                                == b@[j].1@,
                    decreases a.len() - i,
                {
                    proof {
                        assert(decreases_to!(*self => self->Object_0));
                        assert(decreases_to!(*a => a@));
                        assert(decreases_to!(a@ => a@[i as int]));
                        assert(decreases_to!(a@[i as int] => a@[i as int].1));
                    }
                    if !text::str_eq(a[i].0.as_str(), b[i].0.as_str()) {
                        assert(entries(a@)[i as int] != entries(b@)[i as int]);
                        return false;
                    }
                    if !a[i].1.same(&b[i].1) {
                        assert(entries(a@)[i as int] != entries(b@)[i as int]);
                        return false;
                    }
                    i = i + 1;
                }
                assert(entries(a@) =~= entries(b@));
                true
            },
            _ => false,
        }
    }

    /// Whether two values compare as equal.
    pub fn alike(&self, other: &Value) -> (r: bool)
        ensures
            r == self@.alike(other@),
        decreases self,
    {
        match (self, other) {
            (Value::Number(a), Value::Number(b)) => *a == *b || (a.float_zero()
                && b.float_zero()),
            (Value::Array(a), Value::Array(b)) => {
                if a.len() != b.len() {
                    return false;
                }
                let mut i: usize = 0;
                while i < a.len()
                    invariant
                        i <= a.len(),
                        a.len() == b.len(),
                        *self == Value::Array(*a),
                        *other == Value::Array(*b),
                        forall|j: int| 0 <= j < i ==> (#[trigger] views(a@)[j]).alike(views(b@)[j]),
                    decreases a.len() - i,
                {
                    proof {
                        assert(decreases_to!(*self => self->Array_0));
                        assert(decreases_to!(*a => a@));
                        assert(decreases_to!(a@ => a@[i as int]));
                    }
                    assert(views(a@)[i as int] == a@[i as int]@);
                    if !a[i].alike(&b[i]) {
                        return false;
                    }
                    i = i + 1;
                }
                assert(self@ == Json::Array(views(a@)) && other@ == Json::Array(views(b@)));
                assert(self@.alike(other@));
                true
            },
            (Value::Object(a), Value::Object(b)) => {
                if a.len() != b.len() {
                    return false;
                }
                let mut i: usize = 0;
                while i < a.len()
                    invariant
                        i <= a.len(),
                        a.len() == b.len(),
                        *self == Value::Object(*a),
                        *other == Value::Object(*b),
                        forall|j: int|
                            0 <= j < i ==> (#[trigger] entries(a@)[j]).0 == entries(b@)[j].0
                                && entries(a@)[j].1.alike(entries(b@)[j].1),
                    decreases a.len() - i,
                {
                    proof {
                        assert(decreases_to!(*self => self->Object_0));
                        assert(decreases_to!(*a => a@));
                        assert(decreases_to!(a@ => a@[i as int]));
                        assert(decreases_to!(a@[i as int] => a@[i as int].1));
                    }
                    assert(entries(a@)[i as int] == (a@[i as int].0@, a@[i as int].1@));
                    if !text::str_eq(a[i].0.as_str(), b[i].0.as_str()) || !a[i].1.alike(&b[i].1) {
                        return false;
                    }
                    i = i + 1;
                }
                assert(self@ == Json::Object(entries(a@)) && other@ == Json::Object(entries(b@)));
                assert(self@.alike(other@));
                true
            },
            _ => {
                let r = self.same(other);
                assert(self@.alike(other@) == (self@ == other@));
                r
            },
        }
    }

    /// A string value.
    pub fn text(s: &str) -> (r: Value)
        ensures
            r@ == Json::String(s@),
    {
        Value::String(s.to_owned())
    }

    /// A non-negative integer.
    pub fn uint(n: u64) -> (r: Value)
        ensures
            r@ == Json::Number(Number::PosInt(n)),
    {
        Value::Number(Number::PosInt(n))
    }

    /// An object without entries.
    pub fn object() -> (r: Value)
        ensures
            r@ == Json::empty(),
    {
        let v: Vec<(String, Value)> = Vec::new();
        assert(entries(v@) =~= Seq::empty());
        Value::Object(v)
    }

    /// The text of a string.
    pub fn as_str(&self) -> (r: Option<&str>)
        ensures
            text::opt_str(r) == self@.as_str(),
    {
        match self {
            Value::String(s) => Some(s.as_str()),
            _ => None,
        }
    }

    /// The items of an array.
    pub fn as_array(&self) -> (r: Option<&Vec<Value>>)
        ensures
            match r {
                Some(v) => self@.as_array() == Some(views(v@)),
                None => self@.as_array() is None,
            },
    {
        match self {
            Value::Array(v) => Some(v),
            _ => None,
        }
    }

    /// The entries of an object.
    pub fn as_object(&self) -> (r: Option<&Vec<(String, Value)>>)
        ensures
            match r {
                Some(v) => self@.as_object() == Some(entries(v@)),
                None => self@.as_object() is None,
            },
    {
        match self {
            Value::Object(v) => Some(v),
            _ => None,
        }
    }

    /// The truth value of a boolean.
    pub fn as_bool(&self) -> (r: Option<bool>)
        ensures
            r == self@.as_bool(),
    {
        match self {
            Value::Bool(b) => Some(*b),
            _ => None,
        }
    }

    /// The number, when it is a non-negative integer.
    pub fn as_u64(&self) -> (r: Option<u64>)
        ensures
            r == self@.as_u64(),
    {
        match self {
            Value::Number(Number::PosInt(n)) => Some(*n),
            _ => None,
        }
    }

    /// Whether this is an object.
    pub fn is_object(&self) -> (r: bool)
        ensures
            r == (self@ is Object),
    {
        match self {
            Value::Object(_) => true,
            _ => false,
        }
    }

    /// The value under a key of an object.
    pub fn get(&self, key: &str) -> (r: Option<&Value>)
        ensures
            opt_view(r) == self@.get(key@),
    {
        proof {
            reveal(Json::get);
        }
        match self {
            Value::Object(v) => lookup(v, key),
            _ => None,
        }
    }

    /// Whether this is an object that holds the key.
    pub fn has(&self, key: &str) -> (r: bool)
        ensures
            r == self@.has(key@),
    {
        self.get(key).is_some()
    }

    /// The text under a key.
    pub fn str_at(&self, key: &str) -> (r: Option<&str>)
        ensures
            text::opt_str(r) == self@.str_at(key@),
    {
        match self.get(key) {
            Some(v) => v.as_str(),
            None => None,
        }
    }

    /// The items of the array under a key.
    pub fn array_at(&self, key: &str) -> (r: Option<&Vec<Value>>)
        ensures
            match r {
                Some(v) => self@.array_at(key@) == Some(views(v@)),
                None => self@.array_at(key@) is None,
            },
    {
        match self.get(key) {
            Some(v) => v.as_array(),
            None => None,
        }
    }

    /// The entries of the object under a key.
    pub fn object_at(&self, key: &str) -> (r: Option<&Vec<(String, Value)>>)
        ensures
            match r {
                Some(v) => self@.object_at(key@) == Some(entries(v@)),
                None => self@.object_at(key@) is None,
            },
    {
        match self.get(key) {
            Some(v) => v.as_object(),
            None => None,
        }
    }

    /// The truth value under a key.
    pub fn bool_at(&self, key: &str) -> (r: Option<bool>)
        ensures
            r == self@.bool_at(key@),
    {
        match self.get(key) {
            Some(v) => v.as_bool(),
            None => None,
        }
    }

    /// The non-negative integer under a key.
    pub fn u64_at(&self, key: &str) -> (r: Option<u64>)
        ensures
            r == self@.u64_at(key@),
    {
        match self.get(key) {
            Some(v) => v.as_u64(),
            None => None,
        }
    }

    /// Binds a key of an object to a value; leaves anything else unchanged.
    pub fn set(&mut self, key: &str, value: Value)
        ensures
            final(self)@ == old(self)@.with(key@, value@),
    {
        proof {
            reveal(Json::with);
        }
        match self {
            Value::Object(v) => {
                insert_entry(v, key, value);
            },
            _ => {},
        }
    }

    /// The object with a key bound to a value.
    pub fn and(self, key: &str, value: Value) -> (r: Value)
        ensures
            r@ == self@.with(key@, value@),
    {
        let mut v = self;
        v.set(key, value);
        v
    }

    /// Removes a key of an object.
    pub fn unset(&mut self, key: &str)
        ensures
            final(self)@ == old(self)@.minus(key@),
    {
        proof {
            reveal(Json::minus);
        }
        match self {
            Value::Object(v) => {
                remove_entry(v, key);
            },
            _ => {},
        }
    }

    /// One step of a pointer walk.
    pub fn step(&self, token: &str) -> (r: Option<&Value>)
        ensures
            opt_view(r) == self@.step(token@),
    {
        proof {
            reveal(Json::step);
        }
        match self {
            Value::Object(v) => lookup(v, token),
            Value::Array(v) => match text::parse_index(token) {
                Some(n) => if n < v.len() {
                    Some(&v[n])
                } else {
                    None
                },
                None => None,
            },
            _ => None,
        }
    }

    /// The value that a JSON pointer leads to.
    pub fn pointer(&self, ptr: &str) -> (r: Option<&Value>)
        ensures
            opt_view(r) == self@.pointer(ptr@),
    {
        proof {
            reveal(Json::pointer);
        }
        let cs = text::chars_of(ptr);
        if cs.len() == 0 {
            return Some(self);
        }
        if cs[0] != '/' {
            return None;
        }
        let tokens = text::split_on(ptr, '/');
        let ghost toks = text::split(ptr@, '/');
        let mut cur: &Value = self;
        let mut i: usize = 1;
        while i < tokens.len()
            invariant
                1 <= i <= tokens.len(),
                toks == text::texts(tokens@),
                toks == text::split(ptr@, '/'),
                cur@.walk(toks, i as int) == self@.walk(toks, 1),
                self@.pointer(ptr@) == self@.walk(toks, 1),
            decreases tokens.len() - i,
        {
            let token = unescape(tokens[i].as_str());
            assert(toks[i as int] == tokens@[i as int]@);
            match cur.step(token.as_str()) {
                Some(v) => {
                    cur = v;
                },
                None => {
                    return None;
                },
            }
            i = i + 1;
        }
        Some(cur)
    }
}

/// An array of one item.
pub fn list1(a: Value) -> (r: Value)
    ensures
        r@ == Json::Array(seq![a@]),
{
    let mut v: Vec<Value> = Vec::new();
    v.push(a);
    assert(views(v@) =~= seq![a@]);
    Value::Array(v)
}

/// An array of three items.
pub fn list3(a: Value, b: Value, c: Value) -> (r: Value)
    ensures
        r@ == Json::Array(seq![a@, b@, c@]),
{
    let mut v: Vec<Value> = Vec::new();
    v.push(a);
    v.push(b);
    v.push(c);
    assert(views(v@) =~= seq![a@, b@, c@]);
    Value::Array(v)
}

/// The token that a pointer segment stands for.
pub fn unescape(token: &str) -> (r: String)
    ensures
        r@ == unescaped(token@),
{
    proof {
        reveal_strlit("~1");
        reveal_strlit("~0");
    }
    let a = text::replace_text(token, "~1", "/");
    text::replace_text(a.as_str(), "~0", "~")
}

/// The value of the first entry with the given key.
pub fn lookup<'a>(v: &'a Vec<(String, Value)>, key: &str) -> (r: Option<&'a Value>)
    ensures
        opt_view(r) == find(entries(v@), key@),
{
    let ghost e = entries(v@);
    let mut i: usize = 0;
    assert(e.skip(0) =~= e);
    while i < v.len()
        invariant
            i <= v.len(),
            e == entries(v@),
            find(e.skip(i as int), key@) == find(e, key@),
        decreases v.len() - i,
    {
        if text::str_eq(v[i].0.as_str(), key) {
            return Some(&v[i].1);
        }
        assert(e.skip(i as int).skip(1) =~= e.skip(i + 1));
        i = i + 1;
    }
    None
}

/// Binds a key in a list of entries.
pub fn insert_entry(v: &mut Vec<(String, Value)>, key: &str, value: Value)
    ensures
        entries(final(v)@) == put(entries(old(v)@), key@, value@),
{
    let ghost e = entries(v@);
    let ghost j = value@;
    let mut i: usize = 0;
    assert(e.skip(0) =~= e);
    assert(e.take(0) + put(e, key@, j) =~= put(e, key@, j));
    while i < v.len()
        invariant
            i <= v.len(),
            v@ == old(v)@,
            e == entries(v@),
            value@ == j,
            e.take(i as int) + put(e.skip(i as int), key@, j) == put(e, key@, j),
        decreases v.len() - i,
    {
        let ghost rest = e.skip(i as int);
        if text::str_eq(v[i].0.as_str(), key) {
            let k = key.to_owned();
            v.set(i, (k, value));
            assert(entries(v@) =~= e.take(i as int) + (seq![(key@, j)] + rest.skip(1)));
            return;
        }
        if text::str_lt(key, v[i].0.as_str()) {
            let k = key.to_owned();
            v.insert(i, (k, value));
            assert(entries(v@) =~= e.take(i as int) + (seq![(key@, j)] + rest));
            return;
        }
        assert(rest.skip(1) =~= e.skip(i + 1));
        assert(e.take(i as int) + (seq![rest[0]] + put(e.skip(i + 1), key@, j)) =~= e.take(i + 1)
            + put(e.skip(i + 1), key@, j));
        i = i + 1;
    }
    let k = key.to_owned();
    v.push((k, value));
    assert(e.take(i as int) =~= e);
    assert(entries(v@) =~= e + seq![(key@, j)]);
}

/// Removes a key from a list of entries.
pub fn remove_entry(v: &mut Vec<(String, Value)>, key: &str)
    ensures
        entries(final(v)@) == without(entries(old(v)@), key@),
{
    let ghost e = entries(v@);
    let mut i: usize = 0;
    assert(e.skip(0) =~= e);
    assert(e.take(0) + without(e, key@) =~= without(e, key@));
    while i < v.len()
        invariant
            i <= v.len(),
            v@ == old(v)@,
            e == entries(v@),
            e.take(i as int) + without(e.skip(i as int), key@) == without(e, key@),
        decreases v.len() - i,
    {
        let ghost rest = e.skip(i as int);
        if text::str_eq(v[i].0.as_str(), key) {
            v.remove(i);
            assert(entries(v@) =~= e.take(i as int) + rest.skip(1));
            return;
        }
        assert(rest.skip(1) =~= e.skip(i + 1));
        assert(e.take(i as int) + (seq![rest[0]] + without(e.skip(i + 1), key@)) =~= e.take(i + 1)
            + without(e.skip(i + 1), key@));
        i = i + 1;
    }
    assert(e.take(i as int) + e.skip(i as int) =~= e);
}

/// Adding one entry adds its tree.
pub proof fn lemma_entries_push(s: Seq<(String, Value)>, x: (String, Value))
    ensures
        entries(s.push(x)) == entries(s).push((x.0@, x.1@)),
{
    assert(entries(s.push(x)) =~= entries(s).push((x.0@, x.1@)));
}

/// Adding one value adds its tree.
pub proof fn lemma_views_push(s: Seq<Value>, x: Value)
    ensures
        views(s.push(x)) == views(s).push(x@),
{
    assert(views(s.push(x)) =~= views(s).push(x@));
}

/// A found value is part of the entries that it was found in.
pub proof fn lemma_find_member<V>(e: Seq<(Seq<char>, V)>, key: Seq<char>)
    ensures
        find(e, key) matches Some(v) ==> exists|i: int|
            0 <= i < e.len() && e[i].0 == key && #[trigger] e[i].1 == v,
    decreases e.len(),
{
    if e.len() > 0 {
        if e[0].0 != key {
            lemma_find_member(e.skip(1), key);
            if let Some(v) = find(e, key) {
                let i = choose|i: int|
                    0 <= i < e.skip(1).len() && e.skip(1)[i].0 == key && #[trigger] e.skip(1)[i].1
                        == v;
                assert(e[i + 1] == e.skip(1)[i]);
            }
        } else {
            assert(e[0].1 == e[0].1);
        }
    }
}

/// What stands under a key is smaller than the object.
pub proof fn lemma_get_smaller(o: Json, key: Seq<char>)
    ensures
        o.get(key) matches Some(v) ==> decreases_to!(o => v),
        o.array_at(key) matches Some(s) ==> decreases_to!(o => s),
        o.object_at(key) matches Some(s) ==> decreases_to!(o => s),
{
    reveal(Json::get);
    if let Json::Object(e) = o {
        lemma_find_member(e, key);
        if let Some(v) = find(e, key) {
            let i = choose|i: int|
                0 <= i < e.len() && e[i].0 == key && #[trigger] e[i].1 == v;
            assert(decreases_to!(o => o->Object_0));
            assert(decreases_to!(e => e[i]));
            assert(decreases_to!(e[i] => e[i].1));
            match v {
                Json::Array(s) => {
                    assert(decreases_to!(v => v->Array_0));
                },
                Json::Object(s) => {
                    assert(decreases_to!(v => v->Object_0));
                },
                _ => {},
            }
        }
    }
}

/// Reading a key after binding one: the bound key has the new value, every
/// other key is as before.
pub proof fn law_find_put<V>(e: Seq<(Seq<char>, V)>, key: Seq<char>, v: V, other: Seq<char>)
    ensures
        find(put(e, key, v), other) == (if other == key {
            Some(v)
        } else {
            find(e, other)
        }),
    decreases e.len(),
{
    let p = put(e, key, v);
    if e.len() > 0 {
        if e[0].0 == key {
            assert(p.skip(1) =~= e.skip(1));
        } else if text::text_lt(key, e[0].0) {
            assert(p.skip(1) =~= e);
        } else {
            law_find_put(e.skip(1), key, v, other);
            assert(p.skip(1) =~= put(e.skip(1), key, v));
        }
    } else {
        assert(p.skip(1) =~= Seq::empty());
        assert(find(p.skip(1), other) is None);
    }
}

/// Every entry after binding a key is the new one or one that was there.
pub proof fn lemma_put_member<V>(e: Seq<(Seq<char>, V)>, key: Seq<char>, v: V)
    ensures
        forall|i: int|
            0 <= i < put(e, key, v).len() ==> (#[trigger] put(e, key, v)[i]) == (key, v)
                || e.contains(put(e, key, v)[i]),
    decreases e.len(),
{
    let p = put(e, key, v);
    if e.len() > 0 {
        if e[0].0 != key && !text::text_lt(key, e[0].0) {
            lemma_put_member(e.skip(1), key, v);
            let q = put(e.skip(1), key, v);
            assert forall|i: int| 0 <= i < p.len() implies (#[trigger] p[i]) == (key, v)
                || e.contains(p[i]) by {
                if i == 0 {
                    assert(p[0] == e[0]);
                } else {
                    assert(p[i] == q[i - 1]);
                    if q[i - 1] != (key, v) {
                        let k = choose|k: int| 0 <= k < e.skip(1).len() && e.skip(1)[k] == q[i - 1];
                        assert(e[k + 1] == p[i]);
                    }
                }
            }
        } else {
            assert forall|i: int| 0 <= i < p.len() implies (#[trigger] p[i]) == (key, v)
                || e.contains(p[i]) by {
                if i > 0 {
                    if e[0].0 == key {
                        assert(p[i] == e[i]);
                    } else {
                        assert(p[i] == e[i - 1]);
                    }
                }
            }
        }
    }
}

/// Binding a key keeps the keys in order.
pub proof fn law_put_sorted<V>(e: Seq<(Seq<char>, V)>, key: Seq<char>, v: V)
    requires
        sorted(e),
    ensures
        sorted(put(e, key, v)),
    decreases e.len(),
{
    let p = put(e, key, v);
    if e.len() > 0 {
        text::lemma_text_lt_total(key, e[0].0, 0);
        if e[0].0 == key {
            assert(p =~= e.update(0, (key, v)));
        } else if text::text_lt(key, e[0].0) {
            assert forall|i: int, j: int| 0 <= i < j < p.len() implies text::text_lt(
                #[trigger] p[i].0,
                #[trigger] p[j].0,
            ) by {
                assert(p[j] == e[j - 1]);
                if i > 0 {
                    assert(p[i] == e[i - 1]);
                } else if j > 1 {
                    text::lemma_text_lt_trans(key, e[0].0, e[j - 1].0, 0);
                }
            }
        } else {
            law_put_sorted(e.skip(1), key, v);
            lemma_put_member(e.skip(1), key, v);
            let q = put(e.skip(1), key, v);
            assert forall|i: int, j: int| 0 <= i < j < p.len() implies text::text_lt(
                #[trigger] p[i].0,
                #[trigger] p[j].0,
            ) by {
                assert(p[j] == q[j - 1]);
                if i > 0 {
                    assert(p[i] == q[i - 1]);
                } else if q[j - 1] != (key, v) {
                    let k = choose|k: int| 0 <= k < e.skip(1).len() && e.skip(1)[k] == q[j - 1];
                    assert(e[k + 1] == p[j]);
                }
            }
        }
    }
}

/// In a sorted list of entries the value of each entry is found under its key.
pub proof fn lemma_find_entry<V>(e: Seq<(Seq<char>, V)>, i: int)
    requires
        sorted(e),
        0 <= i < e.len(),
    ensures
        find(e, e[i].0) == Some(e[i].1),
    decreases e.len(),
{
    if i > 0 {
        lemma_sorted_tail(e, e[i].0);
        lemma_find_entry(e.skip(1), i - 1);
        assert(e.skip(1)[i - 1] == e[i]);
        assert(find(e.skip(1), e[0].0) is None);
        assert(e[0].0 != e[i].0);
    }
}

/// Reading a key of an object after binding one: the bound key has the new value,
/// every other key is as before.
pub proof fn law_get_with(o: Json, key: Seq<char>, v: Json, other: Seq<char>)
    requires
        o is Object,
    ensures
        o.with(key, v) is Object,
        o.with(key, v).get(other) == (if other == key {
            Some(v)
        } else {
            o.get(other)
        }),
{
    reveal(Json::with);
    reveal(Json::get);
    law_find_put(o->Object_0, key, v, other);
}

/// What is read after binding holds of every object, key and value at once.
pub proof fn lemma_reads()
    ensures
        forall|o: Json, key: Seq<char>, v: Json|
            o is Object ==> (#[trigger] o.with(key, v)) is Object,
        forall|o: Json, key: Seq<char>, v: Json, other: Seq<char>|
            o is Object ==> #[trigger] o.with(key, v).get(other) == (if other == key {
                Some(v)
            } else {
                o.get(other)
            }),
        forall|key: Seq<char>| #[trigger] Json::empty().get(key) is None,
{
    assert forall|o: Json, key: Seq<char>, v: Json| o is Object implies (#[trigger] o.with(
        key,
        v,
    )) is Object by {
        law_get_with(o, key, v, key);
    }
    assert forall|o: Json, key: Seq<char>, v: Json, other: Seq<char>|
        o is Object implies #[trigger] o.with(key, v).get(other) == (if other == key {
        Some(v)
    } else {
        o.get(other)
    }) by {
        law_get_with(o, key, v, other);
    }
    reveal(Json::get);
}

/// Binding a key to a well-formed value keeps an object well-formed.
pub proof fn law_with_wf(o: Json, key: Seq<char>, v: Json)
    requires
        o.wf(),
        v.wf(),
    ensures
        o.with(key, v).wf(),
{
    reveal(Json::with);
    if let Json::Object(e) = o {
        law_put_sorted(e, key, v);
        lemma_put_member(e, key, v);
        let p = put(e, key, v);
        assert forall|i: int| 0 <= i < p.len() implies (#[trigger] p[i]).1.wf() by {
            if p[i] != (key, v) {
                let k = choose|k: int| 0 <= k < e.len() && e[k] == p[i];
                assert(e[k].1.wf());
            }
        }
    }
}

/// Binding a key twice is binding it to the second value.
pub proof fn law_put_put<V>(e: Seq<(Seq<char>, V)>, key: Seq<char>, v: V, w: V)
    ensures
        put(put(e, key, v), key, w) == put(e, key, w),
    decreases e.len(),
{
    let p = put(e, key, v);
    if e.len() == 0 {
        assert(p.skip(1) =~= e);
        assert(put(p, key, w) =~= put(e, key, w));
    } else if e[0].0 == key {
        assert(p.skip(1) =~= e.skip(1));
    } else if text::text_lt(key, e[0].0) {
        assert(p.skip(1) =~= e);
    } else {
        law_put_put(e.skip(1), key, v, w);
        assert(p.skip(1) =~= put(e.skip(1), key, v));
    }
}

/// In entries in order a key is found only where it stands.
proof fn lemma_sorted_tail<V>(e: Seq<(Seq<char>, V)>, key: Seq<char>)
    requires
        sorted(e),
        e.len() > 0,
    ensures
        sorted(e.skip(1)),
        find(e.skip(1), e[0].0) is None,
        find(e.skip(1), key) is Some ==> text::text_lt(e[0].0, key),
{
    let t = e.skip(1);
    assert forall|i: int, j: int| 0 <= i < j < t.len() implies text::text_lt(
        #[trigger] t[i].0,
        #[trigger] t[j].0,
    ) by {
        assert(t[i] == e[i + 1] && t[j] == e[j + 1]);
    }
    lemma_find_member(t, e[0].0);
    if let Some(v) = find(t, e[0].0) {
        let i = choose|i: int| 0 <= i < t.len() && t[i].0 == e[0].0 && #[trigger] t[i].1 == v;
        assert(t[i] == e[i + 1]);
        text::lemma_text_lt_total(e[0].0, e[0].0, 0);
    }
    lemma_find_member(t, key);
    if let Some(v) = find(t, key) {
        let i = choose|i: int| 0 <= i < t.len() && t[i].0 == key && #[trigger] t[i].1 == v;
        assert(t[i] == e[i + 1]);
    }
}

/// Entries in order that bind every key alike are the same.
pub proof fn law_same_bindings<V>(a: Seq<(Seq<char>, V)>, b: Seq<(Seq<char>, V)>)
    requires
        sorted(a),
        sorted(b),
        forall|k: Seq<char>| find(a, k) == #[trigger] find(b, k),
    ensures
        a == b,
    decreases a.len(),
{
    if a.len() == 0 {
        if b.len() > 0 {
            assert(find(b, b[0].0) is Some);
            assert(find(a, b[0].0) is None);
        }
        assert(a =~= b);
    } else {
        assert(find(a, a[0].0) == Some(a[0].1));
        assert(find(b, a[0].0) is Some);
        assert(b.len() > 0);
        assert(find(b, b[0].0) == Some(b[0].1));
        assert(find(a, b[0].0) is Some);
        text::lemma_text_lt_total(a[0].0, b[0].0, 0);
        if a[0].0 != b[0].0 {
            lemma_sorted_tail(a, b[0].0);
            lemma_sorted_tail(b, a[0].0);
        }
        assert(a[0] == b[0]);
        let x = a.skip(1);
        let y = b.skip(1);
        lemma_sorted_tail(a, a[0].0);
        lemma_sorted_tail(b, b[0].0);
        assert forall|k: Seq<char>| find(x, k) == #[trigger] find(y, k) by {
            if k != a[0].0 {
                assert(find(a, k) == find(b, k));
            }
        }
        law_same_bindings(x, y);
        assert(a =~= seq![a[0]] + x);
        assert(b =~= seq![b[0]] + y);
    }
}

/// Binding a key of an object to what it is bound to changes nothing.
pub proof fn law_with_same(o: Json, key: Seq<char>, v: Json)
    requires
        o.wf(),
        o.get(key) == Some(v),
    ensures
        o.with(key, v) == o,
{
    reveal(Json::get);
    reveal(Json::with);
    let e = o->Object_0;
    law_put_sorted(e, key, v);
    assert forall|k: Seq<char>| find(put(e, key, v), k) == #[trigger] find(e, k) by {
        law_find_put(e, key, v, k);
    }
    law_same_bindings(put(e, key, v), e);
}

/// Reading a key of an object after removing one.
pub proof fn law_get_minus(o: Json, key: Seq<char>, other: Seq<char>)
    requires
        o.wf(),
    ensures
        o.minus(key).get(other) == (if other == key {
            None
        } else {
            o.get(other)
        }),
        o.minus(key).wf(),
        o.get(key) is None ==> o.minus(key) == o,
{
    reveal(Json::get);
    reveal(Json::minus);
    if let Json::Object(e) = o {
        lemma_without(e, key, other);
        let w = without(e, key);
        assert forall|i: int| 0 <= i < w.len() implies (#[trigger] w[i]).1.wf() by {
            assert(e.contains(w[i]));
            let k = choose|k: int| 0 <= k < e.len() && e[k] == w[i];
            assert(e[k].1.wf());
        }
    }
}

proof fn lemma_without<V>(e: Seq<(Seq<char>, V)>, key: Seq<char>, other: Seq<char>)
    requires
        sorted(e),
    ensures
        find(without(e, key), other) == (if other == key {
            None
        } else {
            find(e, other)
        }),
        sorted(without(e, key)),
        forall|i: int|
            0 <= i < without(e, key).len() ==> e.contains(#[trigger] without(e, key)[i]),
        find(e, key) is None ==> without(e, key) == e,
    decreases e.len(),
{
    let w = without(e, key);
    if e.len() > 0 {
        lemma_sorted_tail(e, other);
        if e[0].0 == key {
            assert forall|i: int| 0 <= i < w.len() implies e.contains(#[trigger] w[i]) by {
                assert(w[i] == e[i + 1]);
            }
        } else {
            let t = e.skip(1);
            let r = without(t, key);
            lemma_without(t, key, other);
            assert(w.skip(1) =~= r);
            assert forall|i: int| 0 <= i < w.len() implies e.contains(#[trigger] w[i]) by {
                if i == 0 {
                    assert(e[0] == w[0]);
                } else {
                    assert(w[i] == r[i - 1]);
                    assert(t.contains(r[i - 1]));
                    let k = choose|k: int| 0 <= k < t.len() && t[k] == r[i - 1];
                    assert(e[k + 1] == w[i]);
                }
            }
            assert forall|i: int, j: int| 0 <= i < j < w.len() implies text::text_lt(
                #[trigger] w[i].0,
                #[trigger] w[j].0,
            ) by {
                assert(w[j] == r[j - 1]);
                if i > 0 {
                    assert(w[i] == r[i - 1]);
                } else {
                    assert(t.contains(r[j - 1]));
                    let k = choose|k: int| 0 <= k < t.len() && t[k] == r[j - 1];
                    assert(e[k + 1] == w[j]);
                }
            }
            if find(e, key) is None {
                assert(w =~= e);
            }
        }
    }
}

/// What stands under a key of a well-formed object is well-formed.
pub proof fn lemma_get_wf(o: Json, key: Seq<char>)
    requires
        o.wf(),
    ensures
        o.get(key) matches Some(v) ==> v.wf(),
{
    reveal(Json::get);
    if let Json::Object(e) = o {
        lemma_find_member(e, key);
        if let Some(v) = find(e, key) {
            let i = choose|i: int| 0 <= i < e.len() && e[i].0 == key && #[trigger] e[i].1 == v;
            assert(e[i].1.wf());
        }
    }
}

} // verus!
