//! JSON values as the library reads and builds them.
//!
//! Numbers are held as their JSON text, so no floating point enters the library.
//! Serialising a value to JSON text and parsing JSON text are done by `serde_json`.
use vstd::prelude::*;

verus! {

/// A JSON value.
#[derive(Debug, PartialEq)]
pub enum Json {
    Null,
    Bool(bool),
    /// A number, held as its JSON text (for example `42` or `0.5`).
    Number(String),
    Str(String),
    Array(Vec<Json>),
    /// The fields of an object, in order.
    Object(Vec<(String, Json)>),
}

/// The mathematical model of a JSON value.
pub enum JsonV {
    Null,
    Bool(bool),
    Number(Seq<char>),
    Str(Seq<char>),
    Array(Seq<JsonV>),
    Object(Seq<(Seq<char>, JsonV)>),
}

/// The model of a JSON value.
pub open spec fn json_view(j: Json) -> JsonV
    decreases j,
{
    match j {
        Json::Null => JsonV::Null,
        Json::Bool(b) => JsonV::Bool(b),
        Json::Number(n) => JsonV::Number(n@),
        Json::Str(s) => JsonV::Str(s@),
        Json::Array(v) => JsonV::Array(json_seq_view(v@)),
        Json::Object(m) => JsonV::Object(json_fields_view(m@)),
    }
}

/// The model of a sequence of JSON values.
pub open spec fn json_seq_view(s: Seq<Json>) -> Seq<JsonV>
    decreases s,
{
    if s.len() == 0 {
        Seq::empty()
    } else {
        json_seq_view(s.drop_last()).push(json_view(s.last()))
    }
}

/// The model of the fields of a JSON object.
pub open spec fn json_fields_view(s: Seq<(String, Json)>) -> Seq<(Seq<char>, JsonV)>
    decreases s,
{
    if s.len() == 0 {
        Seq::empty()
    } else {
        json_fields_view(s.drop_last()).push((s.last().0@, json_view(s.last().1)))
    }
}

impl Clone for Json {
    fn clone(&self) -> (r: Json)
        ensures
            r@ == self@,
    {
        self.deep_clone()
    }
}

impl View for Json {
    type V = JsonV;

    open spec fn view(&self) -> JsonV {
        json_view(*self)
    }
}

/// The value of the first field named `key`, if `v` is an object that has one.
pub open spec fn fields_get(fs: Seq<(Seq<char>, JsonV)>, key: Seq<char>) -> Option<JsonV>
    decreases fs.len(),
{
    if fs.len() == 0 {
        None
    } else if fs[0].0 == key {
        Some(fs[0].1)
    } else {
        fields_get(fs.drop_first(), key)
    }
}

/// `value.get(key)`: the field `key` of an object; `None` for other values.
pub open spec fn jv_get(v: JsonV, key: Seq<char>) -> Option<JsonV> {
    match v {
        JsonV::Object(fs) => fields_get(fs, key),
        _ => None,
    }
}

/// `value.as_str()`.
pub open spec fn jv_str(v: Option<JsonV>) -> Option<Seq<char>> {
    match v {
        Some(JsonV::Str(s)) => Some(s),
        _ => None,
    }
}

/// `value.as_bool()`.
pub open spec fn jv_bool(v: Option<JsonV>) -> Option<bool> {
    match v {
        Some(JsonV::Bool(b)) => Some(b),
        _ => None,
    }
}

/// `value.as_array()`.
pub open spec fn jv_array(v: Option<JsonV>) -> Option<Seq<JsonV>> {
    match v {
        Some(JsonV::Array(a)) => Some(a),
        _ => None,
    }
}

/// Decimal digits of `s` read as a number (`s` is all digits).
pub open spec fn digits_value(s: Seq<char>) -> nat
    decreases s.len(),
{
    if s.len() == 0 {
        0
    } else {
        digits_value(s.drop_last()) * 10 + ((s.last() as u32) - ('0' as u32)) as nat
    }
}

/// All characters of `s` are decimal digits, and there is at least one.
pub open spec fn all_digits(s: Seq<char>) -> bool {
    s.len() > 0 && forall|i: int| 0 <= i < s.len() ==> '0' <= #[trigger] s[i] && s[i] <= '9'
}

/// `value.as_u64()`: a number that is a non-negative integer fitting in 64 bits.
pub open spec fn jv_u64(v: Option<JsonV>) -> Option<u64> {
    match v {
        Some(JsonV::Number(t)) => if all_digits(t) && digits_value(t) <= u64::MAX {
            Some(digits_value(t) as u64)
        } else {
            None
        },
        _ => None,
    }
}

/// The model of a sequence with one more value.
pub proof fn lemma_seq_view_push(s: Seq<Json>, x: Json)
    ensures
        json_seq_view(s.push(x)) == json_seq_view(s).push(json_view(x)),
{
    assert(s.push(x).drop_last() =~= s);
}

/// The model of fields with one more field.
pub proof fn lemma_fields_view_push(s: Seq<(String, Json)>, k: String, x: Json)
    ensures
        json_fields_view(s.push((k, x))) == json_fields_view(s).push((k@, json_view(x))),
{
    assert(s.push((k, x)).drop_last() =~= s);
}

/// The model of a sequence is taken element by element.
pub proof fn lemma_seq_view_index(s: Seq<Json>)
    ensures
        json_seq_view(s).len() == s.len(),
        forall|i: int| 0 <= i < s.len() ==> #[trigger] json_seq_view(s)[i] == json_view(s[i]),
    decreases s.len(),
{
    if s.len() > 0 {
        lemma_seq_view_index(s.drop_last());
    }
}

/// The model of fields is taken field by field.
pub proof fn lemma_fields_view_index(s: Seq<(String, Json)>)
    ensures
        json_fields_view(s).len() == s.len(),
        forall|i: int|
            0 <= i < s.len() ==> #[trigger] json_fields_view(s)[i] == (s[i].0@, json_view(s[i].1)),
    decreases s.len(),
{
    if s.len() > 0 {
        lemma_fields_view_index(s.drop_last());
    }
}

impl Json {
    /// A copy of this value.
    #[verifier::loop_isolation(false)]
    pub fn deep_clone(&self) -> (r: Json)
        ensures
            r@ == self@,
        decreases self,
    {
        match self {
            Json::Null => Json::Null,
            Json::Bool(b) => Json::Bool(*b),
            Json::Number(n) => Json::Number(n.clone()),
            Json::Str(s) => Json::Str(s.clone()),
            Json::Array(v) => {
                let mut out: Vec<Json> = Vec::new();
                let mut i: usize = 0;
                while i < v.len()
                    invariant
                        i <= v.len(),
                        json_seq_view(out@) == json_seq_view(v@.subrange(0, i as int)),
                    decreases v.len() - i,
                {
                    proof {
                        assert(decreases_to!(*self => (*self)->Array_0));
                        assert(decreases_to!(*v => v@));
                        assert(decreases_to!(v@ => v@[i as int]));
                    }
                    let x = v[i].deep_clone();
                    proof {
                        lemma_seq_view_push(out@, x);
                        lemma_seq_view_push(v@.subrange(0, i as int), v@[i as int]);
                        assert(v@.subrange(0, i + 1) =~= v@.subrange(0, i as int).push(v@[i as int]));
                    }
                    out.push(x);
                    i = i + 1;
                }
                assert(v@.subrange(0, v@.len() as int) =~= v@);
                Json::Array(out)
            },
            Json::Object(m) => {
                let mut out: Vec<(String, Json)> = Vec::new();
                let mut i: usize = 0;
                while i < m.len()
                    invariant
                        i <= m.len(),
                        json_fields_view(out@) == json_fields_view(m@.subrange(0, i as int)),
                    decreases m.len() - i,
                {
                    let k = m[i].0.clone();
                    proof {
                        assert(decreases_to!(*self => (*self)->Object_0));
                        assert(decreases_to!(*m => m@));
                        assert(decreases_to!(m@ => m@[i as int]));
                        assert(decreases_to!(m@[i as int] => m@[i as int].1));
                    }
                    let x = m[i].1.deep_clone();
                    proof {
                        lemma_fields_view_push(out@, k, x);
                        lemma_fields_view_push(m@.subrange(0, i as int), m@[i as int].0, m@[i as int].1);
                        assert(m@.subrange(0, i + 1) =~= m@.subrange(0, i as int).push(m@[i as int]));
                    }
                    out.push((k, x));
                    i = i + 1;
                }
                assert(m@.subrange(0, m@.len() as int) =~= m@);
                Json::Object(out)
            },
        }
    }

    /// `value.get(key)`.
    #[verifier::loop_isolation(false)]
    pub fn get(&self, key: &str) -> (r: Option<&Json>)
        ensures
            r matches Some(x) ==> jv_get(self@, key@) == Some(x@),
            r is None ==> jv_get(self@, key@) is None,
    {
        match self {
            Json::Object(m) => {
                let mut i: usize = 0;
                proof {
                    lemma_fields_view_index(m@);
                    assert(json_fields_view(m@).subrange(0, m@.len() as int) =~= json_fields_view(m@));
                }
                while i < m.len()
                    invariant
                        i <= m.len(),
                        json_fields_view(m@).len() == m@.len(),
                        forall|j: int|
                            0 <= j < m@.len() ==> #[trigger] json_fields_view(m@)[j] == (
                            m@[j].0@,
                            json_view(m@[j].1),
                        ),
                        fields_get(json_fields_view(m@), key@) == fields_get(
                            json_fields_view(m@).subrange(i as int, m@.len() as int),
                            key@,
                        ),
                    decreases m.len() - i,
                {
                    let ghost rest = json_fields_view(m@).subrange(i as int, m@.len() as int);
                    assert(rest.len() > 0);
                    assert(rest[0] == json_fields_view(m@)[i as int]);
                    if crate::text::str_eq(m[i].0.as_str(), key) {
                        assert(self@ == JsonV::Object(json_fields_view(m@)));
                        assert(fields_get(rest, key@) == Some(rest[0].1));
                        return Some(&m[i].1);
                    }
                    assert(rest.drop_first() =~= json_fields_view(m@).subrange(
                        i + 1,
                        m@.len() as int,
                    ));
                    i = i + 1;
                }
                None
            },
            _ => None,
        }
    }

    /// `value.as_str()`.
    pub fn as_str(&self) -> (r: Option<&String>)
        ensures
            r matches Some(s) ==> jv_str(Some(self@)) == Some(s@),
            r is None ==> jv_str(Some(self@)) is None,
    {
        match self {
            Json::Str(s) => Some(s),
            _ => None,
        }
    }

    /// `value.as_bool()`.
    pub fn as_bool(&self) -> (r: Option<bool>)
        ensures
            r == jv_bool(Some(self@)),
    {
        match self {
            Json::Bool(b) => Some(*b),
            _ => None,
        }
    }

    /// `value.as_array()`.
    pub fn as_array(&self) -> (r: Option<&Vec<Json>>)
        ensures
            r matches Some(v) ==> jv_array(Some(self@)) == Some(json_seq_view(v@)),
            r is None ==> jv_array(Some(self@)) is None,
    {
        match self {
            Json::Array(v) => Some(v),
            _ => None,
        }
    }

    /// `value.as_u64()`.
    pub fn as_u64(&self) -> (r: Option<u64>)
        ensures
            r == jv_u64(Some(self@)),
    {
        match self {
            Json::Number(t) => digits_to_u64(t.as_str()),
            _ => None,
        }
    }
}

/// The value of `s` read as decimal digits, when it is all digits and fits in 64 bits.
pub fn digits_to_u64(s: &str) -> (r: Option<u64>)
    ensures
        r == (if all_digits(s@) && digits_value(s@) <= u64::MAX {
            Some(digits_value(s@) as u64)
        } else {
            None
        }),
{
    let v = crate::text::chars_of(s);
    if v.len() == 0 {
        return None;
    }
    let mut n: u64 = 0;
    let mut i: usize = 0;
    while i < v.len()
        invariant
            i <= v.len(),
            v@ == s@,
            forall|j: int| 0 <= j < i ==> '0' <= #[trigger] v@[j] && v@[j] <= '9',
            n == digits_value(v@.subrange(0, i as int)),
        decreases v.len() - i,
    {
        let c = v[i];
        assert(v@.subrange(0, i + 1).drop_last() =~= v@.subrange(0, i as int));
        if c < '0' || c > '9' {
            return None;
        }
        let d = (c as u32 - '0' as u32) as u64;
        if n > (u64::MAX - d) / 10 {
            proof {
                assert(n * 10 + d > u64::MAX) by (nonlinear_arith)
                    requires
                        n > (u64::MAX - d) / 10,
                        d <= 9,
                ;
                if all_digits(v@) {
                    lemma_digits_value_prefix_le(v@, i as int + 1);
                }
            }
            return None;
        }
        n = n * 10 + d;
        i = i + 1;
    }
    assert(v@.subrange(0, i as int) =~= v@);
    Some(n)
}

/// The value of the digits grows with the prefix.
pub proof fn lemma_digits_value_prefix_le(s: Seq<char>, i: int)
    requires
        0 <= i <= s.len(),
        forall|j: int| 0 <= j < s.len() ==> '0' <= #[trigger] s[j] && s[j] <= '9',
    ensures
        digits_value(s.subrange(0, i)) <= digits_value(s),
    decreases s.len() - i,
{
    if i < s.len() {
        lemma_digits_value_prefix_le(s, i + 1);
        assert(s.subrange(0, i + 1).drop_last() =~= s.subrange(0, i));
    } else {
        assert(s.subrange(0, i) =~= s);
    }
}

/// The decimal text of `n`.
pub open spec fn decimal_text(n: nat) -> Seq<char>
    decreases n,
{
    if n < 10 {
        seq![(('0' as u32) + n) as char]
    } else {
        decimal_text(n / 10).push((('0' as u32) + (n % 10)) as char)
    }
}

/// The decimal text of `n` (`u64::to_string`).
pub fn u64_text(n: u64) -> (s: String)
    ensures
        s@ == decimal_text(n as nat),
    decreases n,
{
    if n < 10 {
        let mut s = String::new();
        crate::text::push_char(&mut s, char_of_digit(n));
        assert(s@ =~= seq![(('0' as u32) + n) as char]);
        s
    } else {
        let mut s = u64_text(n / 10);
        crate::text::push_char(&mut s, char_of_digit(n % 10));
        s
    }
}

/// The character of a decimal digit.
pub fn char_of_digit(d: u64) -> (c: char)
    requires
        d < 10,
    ensures
        c == (('0' as u32) + d) as char,
{
    if d == 0 { '0' }
    else if d == 1 { '1' }
    else if d == 2 { '2' }
    else if d == 3 { '3' }
    else if d == 4 { '4' }
    else if d == 5 { '5' }
    else if d == 6 { '6' }
    else if d == 7 { '7' }
    else if d == 8 { '8' }
    else { '9' }
}

/// A JSON string holding `s`.
pub fn jstr(s: &str) -> (r: Json)
    ensures
        r@ == JsonV::Str(s@),
{
    Json::Str(crate::text::ToOwnedString::to_owned_string(s))
}

/// Appends the field `k: v` to the fields of an object under construction.
pub fn jfield(fs: &mut Vec<(String, Json)>, k: &str, v: Json)
    ensures
        json_fields_view(final(fs)@) == json_fields_view(old(fs)@).push((k@, v@)),
{
    let key = crate::text::ToOwnedString::to_owned_string(k);
    proof {
        lemma_fields_view_push(fs@, key, v);
    }
    fs.push((key, v));
}

/// The JSON strings of a list of texts.
pub open spec fn str_values(ts: Seq<Seq<char>>) -> Seq<JsonV> {
    ts.map_values(|t: Seq<char>| JsonV::Str(t))
}

/// A JSON array of strings.
pub fn json_str_array(v: &Vec<String>) -> (r: Json)
    ensures
        r@ == JsonV::Array(str_values(crate::text::views(v@))),
{
    let mut a: Vec<Json> = Vec::new();
    let mut i: usize = 0;
    while i < v.len()
        invariant
            i <= v.len(),
            json_seq_view(a@) == str_values(crate::text::views(v@.subrange(0, i as int))),
        decreases v.len() - i,
    {
        let x = Json::Str(v[i].clone());
        proof {
            lemma_seq_view_push(a@, x);
        }
        a.push(x);
        assert(str_values(crate::text::views(v@.subrange(0, i + 1))) =~= str_values(
            crate::text::views(v@.subrange(0, i as int)),
        ).push(JsonV::Str(v@[i as int]@)));
        i = i + 1;
    }
    assert(v@.subrange(0, i as int) =~= v@);
    Json::Array(a)
}

/// Appends `v` to an array under construction.
pub fn jpush(a: &mut Vec<Json>, v: Json)
    ensures
        json_seq_view(final(a)@) == json_seq_view(old(a)@).push(v@),
{
    proof {
        lemma_seq_view_push(a@, v);
    }
    a.push(v);
}

/// The JSON text that `serde_json` writes for a value (`Value::to_string`).
pub uninterp spec fn json_text(v: JsonV) -> Seq<char>;

/// What `serde_json::from_str::<Value>` reads from a text: the value, or the
/// text of the syntax error.
pub uninterp spec fn json_parse(s: Seq<char>) -> Result<JsonV, Seq<char>>;

/// Calls `serde_json::Value::to_string` on the `serde_json` form of `v`.
///
/// Claims that the text is a function of the value alone.
#[verifier::external_body]
pub(crate) fn to_json_text(v: &Json) -> (s: String)
    ensures
        s@ == json_text(v@),
{
    serde_of(v).to_string()
}

/// Calls `serde_json::from_str::<serde_json::Value>` and takes the parsed value
/// into the library's form, or the error into its text.
///
/// Claims that the outcome is a function of the text alone.
#[verifier::external_body]
pub(crate) fn parse_json(s: &str) -> (r: Result<Json, String>)
    ensures
        match r {
            Ok(v) => json_parse(s@) == Ok::<JsonV, Seq<char>>(v@),
            Err(e) => json_parse(s@) == Err::<JsonV, Seq<char>>(e@),
        },
{
    serde_json::from_str::<serde_json::Value>(s).map(|v| json_of(&v)).map_err(|e| e.to_string())
}

/// `serde_json::Value`, carried through the conversions below.
#[verifier::external_type_specification]
#[verifier::external_body]
pub struct ExSerdeValue(serde_json::Value);

/// Takes a library value into the `serde_json` form, one variant for another.
#[verifier::external_body]
fn serde_of(v: &Json) -> serde_json::Value {
    match v {
        Json::Null => serde_json::Value::Null,
        Json::Bool(b) => serde_json::Value::Bool(*b),
        Json::Number(n) => serde_json::from_str(n).unwrap_or(serde_json::Value::Null),
        Json::Str(s) => serde_json::Value::String(s.clone()),
        Json::Array(a) => serde_json::Value::Array(a.iter().map(serde_of).collect()),
        Json::Object(m) => serde_json::Value::Object(
            m.iter().map(|(k, x)| (k.clone(), serde_of(x))).collect(),
        ),
    }
}

/// Takes a `serde_json` value into the library's form, one variant for another.
#[verifier::external_body]
fn json_of(v: &serde_json::Value) -> Json {
    match v {
        serde_json::Value::Null => Json::Null,
        serde_json::Value::Bool(b) => Json::Bool(*b),
        serde_json::Value::Number(n) => Json::Number(n.to_string()),
        serde_json::Value::String(s) => Json::Str(s.clone()),
        serde_json::Value::Array(a) => Json::Array(a.iter().map(json_of).collect()),
        serde_json::Value::Object(m) => Json::Object(
            m.iter().map(|(k, x)| (k.clone(), json_of(x))).collect(),
        ),
    }
}

} // verus!
