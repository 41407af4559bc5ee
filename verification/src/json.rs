//! JSON objects as the library writes and reads them: one level of members, kept in key order.
//!
//! Nested values are carried as their JSON text. How a string is quoted, and what a text means as
//! JSON, comes from `serde_json`.

use vstd::prelude::*;
use vstd::string::*;

use crate::numbers::{all_digits, decimal, decimal_reads, decimal_text, signed_decimal};
use crate::text::{same_text, str_less, text_less};

verus! {

/// The value of one member.
#[derive(Debug)]
pub enum JsonValue {
    Null,
    Bool(bool),
    Unsigned(u64),
    Text(String),
    /// An array of byte offsets.
    Offsets(Vec<u64>),
    /// The JSON text of any other value.
    Raw(String),
}

/// The model of a [`JsonValue`].
#[verifier::ext_equal]
pub enum JsonModel {
    Null,
    Bool(bool),
    Unsigned(u64),
    Text(Seq<char>),
    Offsets(Seq<u64>),
    Raw(Seq<char>),
}

impl View for JsonValue {
    type V = JsonModel;

    open spec fn view(&self) -> JsonModel {
        match self {
            JsonValue::Null => JsonModel::Null,
            JsonValue::Bool(b) => JsonModel::Bool(*b),
            JsonValue::Unsigned(n) => JsonModel::Unsigned(*n),
            JsonValue::Text(s) => JsonModel::Text(s@),
            JsonValue::Offsets(v) => JsonModel::Offsets(v@),
            JsonValue::Raw(s) => JsonModel::Raw(s@),
        }
    }
}

impl Clone for JsonValue {
    fn clone(&self) -> (r: Self)
        ensures
            r@ == self@,
    {
        match self {
            JsonValue::Null => JsonValue::Null,
            JsonValue::Bool(b) => JsonValue::Bool(*b),
            JsonValue::Unsigned(n) => JsonValue::Unsigned(*n),
            JsonValue::Text(s) => JsonValue::Text(s.clone()),
            JsonValue::Offsets(v) => JsonValue::Offsets(copy_offsets(v)),
            JsonValue::Raw(s) => JsonValue::Raw(s.clone()),
        }
    }
}

impl JsonValue {
    /// Whether two values are the same.
    pub fn same(&self, other: &JsonValue) -> (r: bool)
        ensures
            r == (self@ == other@),
    {
        match (self, other) {
            (JsonValue::Null, JsonValue::Null) => true,
            (JsonValue::Bool(a), JsonValue::Bool(b)) => *a == *b,
            (JsonValue::Unsigned(a), JsonValue::Unsigned(b)) => *a == *b,
            (JsonValue::Text(a), JsonValue::Text(b)) => same_text(a.as_str(), b.as_str()),
            (JsonValue::Offsets(a), JsonValue::Offsets(b)) => same_offsets(a, b),
            (JsonValue::Raw(a), JsonValue::Raw(b)) => same_text(a.as_str(), b.as_str()),
            _ => false,
        }
    }
}

fn same_offsets(a: &Vec<u64>, b: &Vec<u64>) -> (r: bool)
    ensures
        r == (a@ == b@),
{
    if a.len() != b.len() {
        return false;
    }
    let mut i: usize = 0;
    while i < a.len()
        invariant
            i <= a@.len(),
            a@.len() == b@.len(),
            forall|j: int| 0 <= j < i ==> a@[j] == b@[j],
        decreases a@.len() - i,
    {
        if a[i] != b[i] {
            return false;
        }
        i += 1;
    }
    proof {
        assert(a@ =~= b@);
    }
    true
}

fn copy_offsets(v: &Vec<u64>) -> (r: Vec<u64>)
    ensures
        r@ == v@,
{
    let mut out: Vec<u64> = Vec::new();
    let mut i: usize = 0;
    while i < v.len()
        invariant
            i <= v@.len(),
            out@ == v@.take(i as int),
        decreases v@.len() - i,
    {
        proof {
            assert(v@.take(i + 1) =~= v@.take(i as int).push(v@[i as int]));
        }
        out.push(v[i]);
        i += 1;
    }
    proof {
        assert(v@.take(i as int) =~= v@);
    }
    out
}

/// The members of an object, in key order.
pub type Members = Seq<(Seq<char>, JsonModel)>;

/// A JSON object: members in strictly increasing key order.
#[derive(Debug)]
pub struct JsonObject {
    members: Vec<(String, JsonValue)>,
}

/// Whether the keys are in strictly increasing order.
pub open spec fn keys_increase(members: Members) -> bool {
    forall|i: int, j: int|
        0 <= i < j < members.len() ==> text_less(#[trigger] members[i].0, #[trigger] members[j].0)
}

/// The value of the first member with this key.
pub open spec fn member(members: Members, key: Seq<char>) -> Option<JsonModel>
    decreases members.len(),
{
    if members.len() == 0 {
        None
    } else if members[0].0 == key {
        Some(members[0].1)
    } else {
        member(members.drop_first(), key)
    }
}

/// The members with `key` bound to `value`.
pub open spec fn with_member(members: Members, key: Seq<char>, value: JsonModel) -> Members
    decreases members.len(),
{
    if members.len() == 0 {
        seq![(key, value)]
    } else if members[0].0 == key {
        seq![(key, value)] + members.drop_first()
    } else if text_less(key, members[0].0) {
        seq![(key, value)] + members
    } else {
        seq![members[0]] + with_member(members.drop_first(), key, value)
    }
}

/// The members without `key`.
pub open spec fn without_member(members: Members, key: Seq<char>) -> Members
    decreases members.len(),
{
    if members.len() == 0 {
        members
    } else if members[0].0 == key {
        members.drop_first()
    } else {
        seq![members[0]] + without_member(members.drop_first(), key)
    }
}

/// The value of a text member.
pub open spec fn text_member(members: Members, key: Seq<char>) -> Option<Seq<char>> {
    match member(members, key) {
        Some(JsonModel::Text(s)) => Some(s),
        _ => None,
    }
}

/// The value of an unsigned integer member.
pub open spec fn unsigned_member(members: Members, key: Seq<char>) -> Option<u64> {
    match member(members, key) {
        Some(JsonModel::Unsigned(n)) => Some(n),
        _ => None,
    }
}

/// The lower-case hexadecimal digit for `d`, which is below sixteen.
pub open spec fn hex_digit(d: nat) -> char {
    if d < 10 {
        ('0' as u8 + d) as u8 as char
    } else {
        ('a' as u8 + (d - 10)) as u8 as char
    }
}

/// How one character is written inside a JSON string.
pub open spec fn escaped_char(c: char) -> Seq<char> {
    if c == '"' {
        seq!['\\', '"']
    } else if c == '\\' {
        seq!['\\', '\\']
    } else if c == '\u{8}' {
        seq!['\\', 'b']
    } else if c == '\u{c}' {
        seq!['\\', 'f']
    } else if c == '\n' {
        seq!['\\', 'n']
    } else if c == '\r' {
        seq!['\\', 'r']
    } else if c == '\t' {
        seq!['\\', 't']
    } else if (c as u32) < 0x20 {
        seq!['\\', 'u', '0', '0', hex_digit((c as u32 / 16) as nat), hex_digit((c as u32 % 16) as nat)]
    } else {
        seq![c]
    }
}

/// How a text is written inside a JSON string.
pub open spec fn escaped(s: Seq<char>) -> Seq<char>
    decreases s.len(),
{
    if s.len() == 0 {
        seq![]
    } else {
        escaped(s.drop_last()) + escaped_char(s.last())
    }
}

/// The JSON string for a text.
pub open spec fn json_string(s: Seq<char>) -> Seq<char> {
    seq!['"'] + escaped(s) + seq!['"']
}

/// Whether a text stands in a JSON string as it is.
pub open spec fn is_plain(s: Seq<char>) -> bool {
    forall|i: int|
        0 <= i < s.len() ==> (#[trigger] s[i]) as u32 >= 0x20 && s[i] != '"' && s[i] != '\\'
}

/// A plain text is written without escapes.
pub proof fn plain_text_is_kept(s: Seq<char>)
    requires
        is_plain(s),
    ensures
        escaped(s) == s,
    decreases s.len(),
{
    if s.len() > 0 {
        plain_text_is_kept(s.drop_last());
        assert(s.last() == s[s.len() - 1]);
        assert(escaped(s) =~= s);
    } else {
        assert(escaped(s) =~= s);
    }
}

/// The JSON text of a list of offsets, without its brackets.
pub open spec fn offsets_text(v: Seq<u64>) -> Seq<char>
    decreases v.len(),
{
    if v.len() == 0 {
        seq![]
    } else if v.len() == 1 {
        decimal(v[0] as nat)
    } else {
        offsets_text(v.drop_last()) + seq![','] + decimal(v.last() as nat)
    }
}

/// The JSON text of a value.
pub open spec fn value_text(value: JsonModel) -> Seq<char> {
    match value {
        JsonModel::Null => "null"@,
        JsonModel::Bool(b) => if b {
            "true"@
        } else {
            "false"@
        },
        JsonModel::Unsigned(n) => decimal(n as nat),
        JsonModel::Text(s) => json_string(s),
        JsonModel::Offsets(v) => seq!['['] + offsets_text(v) + seq![']'],
        JsonModel::Raw(s) => s,
    }
}

/// The JSON text of the members, without the braces.
pub open spec fn members_text(members: Members) -> Seq<char>
    decreases members.len(),
{
    if members.len() == 0 {
        seq![]
    } else {
        members_text(members.drop_last()) + (if members.len() == 1 {
            seq![]
        } else {
            seq![',']
        }) + json_string(members.last().0) + seq![':'] + value_text(members.last().1)
    }
}

/// The JSON text of an object.
pub open spec fn object_text(members: Members) -> Seq<char> {
    seq!['{'] + members_text(members) + seq!['}']
}

/// Whether every member has a value of this module's own: no carried JSON text.
pub open spec fn own_members(members: Members) -> bool {
    forall|i: int| 0 <= i < members.len() ==> !((#[trigger] members[i].1) is Raw)
}

/// A value after it was written and read back: a list comes back as its text.
pub open spec fn reread(value: JsonModel) -> JsonModel {
    match value {
        JsonModel::Offsets(_) => JsonModel::Raw(value_text(value)),
        _ => value,
    }
}

/// Members after they were written and read back.
pub open spec fn reread_members(members: Members) -> Members {
    members.map_values(|m: (Seq<char>, JsonModel)| (m.0, reread(m.1)))
}

/// Reading back keeps every text and every number.
pub proof fn reread_keeps(members: Members, key: Seq<char>)
    ensures
        member(reread_members(members), key) == (match member(members, key) {
            Some(value) => Some(reread(value)),
            None => None,
        }),
        text_member(reread_members(members), key) == text_member(members, key),
        unsigned_member(reread_members(members), key) == unsigned_member(members, key),
    decreases members.len(),
{
    if members.len() > 0 {
        assert(reread_members(members).drop_first() =~= reread_members(members.drop_first()));
        reread_keeps(members.drop_first(), key);
    }
}

/// What `serde_json` reads from a text: the members of an object, or that it is another value, or
/// why it is no JSON.
pub uninterp spec fn json_read(text: Seq<char>) -> Result<
    Option<Seq<(Seq<char>, JsonModel)>>,
    Seq<char>,
>;

/// The members of the object that a text writes, if it is one.
pub open spec fn json_members(text: Seq<char>) -> Option<Members> {
    match json_read(text) {
        Ok(members) => members,
        Err(_) => None,
    }
}

/// Whether a carried JSON text was itself read as the value of a member.
pub open spec fn was_read(raw: Seq<char>) -> bool {
    exists|source: Seq<char>, i: int|
        json_members(source) is Some && 0 <= i < json_members(source)->0.len()
            && #[trigger] json_members(source)->0[i].1 == JsonModel::Raw(raw)
}

/// Whether a text is a JSON integer without a sign: digits without a leading zero.
pub open spec fn is_unsigned_integer(text: Seq<char>) -> bool {
    all_digits(text) && (text.len() == 1 || text[0] != '0')
}

/// Whether a text is a JSON fraction: nothing, or a point and digits.
pub open spec fn is_fraction(text: Seq<char>) -> bool {
    text.len() == 0 || (text[0] == '.' && all_digits(text.skip(1)))
}

/// Whether a text is a JSON exponent: nothing, or an `e`, perhaps a sign, and digits.
pub open spec fn is_exponent(text: Seq<char>) -> bool {
    text.len() == 0 || ((text[0] == 'e' || text[0] == 'E') && (all_digits(text.skip(1)) || (
    text.len() > 1 && (text[1] == '+' || text[1] == '-') && all_digits(text.skip(2)))))
}

/// Whether a text is a JSON number without a sign.
pub open spec fn is_unsigned_number(text: Seq<char>) -> bool {
    exists|a: int, b: int|
        0 <= a <= b <= text.len() && is_unsigned_integer(#[trigger] text.subrange(0, a))
            && is_fraction(text.subrange(a, b)) && is_exponent(
            #[trigger] text.subrange(b, text.len() as int),
        )
}

/// Whether a text is a JSON number.
pub open spec fn is_json_number(text: Seq<char>) -> bool {
    is_unsigned_number(text) || (text.len() > 0 && text[0] == '-' && is_unsigned_number(
        text.skip(1),
    ))
}

/// Whether a JSON text is a number, or null, or was read as the value of a member.
pub open spec fn is_plain_value(raw: Seq<char>) -> bool {
    is_json_number(raw) || raw == "null"@ || was_read(raw)
}

/// Whether the carried JSON texts among the members are plain values.
pub open spec fn plain_members(members: Members) -> bool {
    forall|i: int|
        0 <= i < members.len() ==> match (#[trigger] members[i]).1 {
            JsonModel::Raw(raw) => is_plain_value(raw),
            _ => true,
        }
}

/// Whether a carried JSON text is a plain value, or an object that was written with plain values.
pub open spec fn is_carried(raw: Seq<char>) -> bool {
    is_plain_value(raw) || exists|members: Members| #[trigger]
        object_text(members) == raw && keys_increase(members) && plain_members(members)
}

/// Whether every carried JSON text among the members is the text of a value.
pub open spec fn carried_members(members: Members) -> bool {
    forall|i: int|
        0 <= i < members.len() ==> match (#[trigger] members[i]).1 {
            JsonModel::Raw(raw) => is_carried(raw),
            _ => true,
        }
}

/// The decimal form of an integer is a JSON number.
pub proof fn decimal_is_json_number(n: int)
    ensures
        is_json_number(signed_decimal(n)),
{
    let size: nat = if n < 0 {
        (-n) as nat
    } else {
        n as nat
    };
    let digits = decimal(size);
    decimal_is_integer(size);
    let len = digits.len() as int;
    assert(digits.subrange(0, len) =~= digits);
    assert(digits.subrange(len, len).len() == 0);
    assert(is_unsigned_integer(digits.subrange(0, len)) && is_exponent(
        digits.subrange(len, digits.len() as int),
    ));
    assert(is_unsigned_number(digits));
    if n < 0 {
        assert(signed_decimal(n).skip(1) =~= digits);
    }
}

proof fn decimal_is_integer(n: nat)
    ensures
        is_unsigned_integer(decimal(n)),
        n > 0 ==> decimal(n)[0] != '0',
    decreases n,
{
    decimal_reads(n);
    if n >= 10 {
        decimal_is_integer(n / 10);
        assert(decimal(n)[0] == decimal(n / 10)[0]);
    }
}

/// Whether members that were read back have the same keys, and the same values but for carried
/// JSON texts.
pub open spec fn own_values_kept(members: Members, back: Members) -> bool {
    &&& back.len() == members.len()
    &&& forall|i: int|
        0 <= i < members.len() ==> (#[trigger] back[i]).0 == members[i].0 && (members[i].1 is Raw
            || back[i].1 == reread(members[i].1))
}

/// Whether a text that was written as an object with carried JSON texts, where it reads as an
/// object at all, reads back with the other values unchanged.
pub open spec fn carries_back(text: Seq<char>) -> bool {
    forall|members: Members| #[trigger]
        object_text(members) == text && keys_increase(members) && carried_members(members) ==> (
        json_members(text) matches Some(back) ==> own_values_kept(members, back))
}

/// Whether the members that a text is read as are in key order.
pub open spec fn reads_in_order(text: Seq<char>) -> bool {
    json_members(text) matches Some(members) ==> keys_increase(members)
}

/// What is read from a text can be carried.
pub proof fn read_members_are_carried(text: Seq<char>)
    requires
        json_members(text) is Some,
    ensures
        carried_members(json_members(text)->0),
{
    let members = json_members(text)->0;
    assert forall|i: int| 0 <= i < members.len() implies match (#[trigger] members[i]).1 {
        JsonModel::Raw(raw) => is_carried(raw),
        _ => true,
    } by {
        if let JsonModel::Raw(raw) = members[i].1 {
            assert(json_members(text)->0[i].1 == JsonModel::Raw(raw));
            assert(was_read(raw));
        }
    }
}

/// Binding a key to a value that can be carried keeps all values so.
pub proof fn with_member_is_carried(members: Members, key: Seq<char>, value: JsonModel)
    requires
        keys_increase(members),
        carried_members(members),
        value matches JsonModel::Raw(raw) ==> is_carried(raw),
    ensures
        carried_members(with_member(members, key, value)),
{
    with_member_ordered(members, key, value);
    let result = with_member(members, key, value);
    assert forall|i: int| 0 <= i < result.len() implies match (#[trigger] result[i]).1 {
        JsonModel::Raw(raw) => is_carried(raw),
        _ => true,
    } by {
        if result[i] != (key, value) {
            let j = choose|j: int| 0 <= j < members.len() && members[j] == result[i];
            assert(members[j] == result[i]);
        }
    }
}

/// Binding a key to a plain value keeps all values plain.
pub proof fn with_member_is_plain(members: Members, key: Seq<char>, value: JsonModel)
    requires
        keys_increase(members),
        plain_members(members),
        value matches JsonModel::Raw(raw) ==> is_plain_value(raw),
    ensures
        plain_members(with_member(members, key, value)),
{
    with_member_ordered(members, key, value);
    let result = with_member(members, key, value);
    assert forall|i: int| 0 <= i < result.len() implies match (#[trigger] result[i]).1 {
        JsonModel::Raw(raw) => is_plain_value(raw),
        _ => true,
    } by {
        if result[i] != (key, value) {
            let j = choose|j: int| 0 <= j < members.len() && members[j] == result[i];
            assert(members[j] == result[i]);
        }
    }
}

/// A value that is not carried JSON text is found again.
pub proof fn own_value_is_found(members: Members, back: Members, key: Seq<char>)
    requires
        own_values_kept(members, back),
        member(members, key) is Some,
        !(member(members, key)->0 is Raw),
    ensures
        member(back, key) == Some(reread(member(members, key)->0)),
    decreases members.len(),
{
    assert(back[0].0 == members[0].0);
    if members[0].0 != key {
        let rest = members.drop_first();
        let rest_back = back.drop_first();
        assert forall|i: int| 0 <= i < rest.len() implies (#[trigger] rest_back[i]).0 == rest[i].0
            && (rest[i].1 is Raw || rest_back[i].1 == reread(rest[i].1)) by {
            assert(rest_back[i] == back[i + 1]);
        }
        own_value_is_found(rest, rest_back, key);
    }
}

/// Writes a text as a JSON string.
///
/// Trusted: `serde_json::to_string` on a `str` puts it in double quotes, writes the quote, the
/// backslash and the control characters below U+0020 as escapes (the short form where JSON has
/// one, `\u00xx` otherwise), and every other character as it is.
#[verifier::external_body]
pub(crate) fn json_string_text(text: &str) -> (r: String)
    ensures
        r@ == json_string(text@),
{
    serde_json::to_string(text).unwrap_or_default()
}

/// Reads a text as JSON.
///
/// Trusted: `serde_json::from_str` reads the text as a `Value` or says why it cannot; for an
/// object, its map hands out the members in key order, each key once. What it reads is named by
/// [`json_read`]. Reading back an object that was written in the compact form of this module
/// gives the same members, where a list comes back as its compact JSON text. Where the object also
/// carries JSON texts (numbers, null, texts that were read before, or objects of these), and reads
/// as an object (a number at the edge of its range may not), the keys and the other values come
/// back; nothing is said of how a carried text is written again.
#[verifier::external_body]
pub(crate) fn parse_json(text: &str) -> (r: Result<Option<Vec<(String, JsonValue)>>, String>)
    ensures
        read_model(r) == json_read(text@),
        read_model(r) matches Ok(Some(members)) ==> keys_increase(members),
        forall|members: Members| #[trigger]
            object_text(members) == text@ && keys_increase(members) && own_members(members)
                ==> read_model(r) == object_read(reread_members(members)),
        forall|members: Members| #[trigger]
            object_text(members) == text@ && keys_increase(members) && carried_members(members)
                ==> (read_model(r) matches Ok(Some(back)) ==> own_values_kept(members, back)),
{
    let value: serde_json::Value = serde_json::from_str(text).map_err(|error| error.to_string())?;
    let serde_json::Value::Object(map) = value else { return Ok(None) };
    Ok(Some(map.into_iter().map(|(key, value)| (key, match value {
        serde_json::Value::Null => JsonValue::Null,
        serde_json::Value::Bool(b) => JsonValue::Bool(b),
        serde_json::Value::String(s) => JsonValue::Text(s),
        serde_json::Value::Number(n) => match n.as_u64() {
            Some(n) => JsonValue::Unsigned(n),
            None => JsonValue::Raw(n.to_string()),
        },
        value => JsonValue::Raw(value.to_string()),
    })).collect()))
}

/// That an object with these members was read.
pub open spec fn object_read(members: Members) -> Result<Option<Members>, Seq<char>> {
    Ok(Some(members))
}

/// The model of a list of members.
pub open spec fn members_model(members: Vec<(String, JsonValue)>) -> Members {
    members@.map_values(|m: (String, JsonValue)| (m.0@, m.1@))
}

/// The model of what was read from a text.
pub open spec fn read_model(
    read: Result<Option<Vec<(String, JsonValue)>>, String>,
) -> Result<Option<Members>, Seq<char>> {
    match read {
        Ok(Some(members)) => Ok(Some(members_model(members))),
        Ok(None) => Ok(None),
        Err(error) => Err(error@),
    }
}

impl JsonObject {
    /// The members, in key order.
    pub closed spec fn view(&self) -> Members {
        self.members@.map_values(|m: (String, JsonValue)| (m.0@, m.1@))
    }

    /// Keys are in strictly increasing order.
    #[verifier::type_invariant]
    pub open spec fn ordered(self) -> bool {
        keys_increase(self.view())
    }

    /// An object without members.
    pub fn new() -> (r: JsonObject)
        ensures
            r@ == Seq::<(Seq<char>, JsonModel)>::empty(),
    {
        let members: Vec<(String, JsonValue)> = Vec::new();
        proof {
            assert(members@.map_values(|m: (String, JsonValue)| (m.0@, m.1@))
                =~= Seq::<(Seq<char>, JsonModel)>::empty());
        }
        JsonObject { members }
    }

    /// The object that a text writes, if it is one.
    pub fn parse(text: &str) -> (r: Option<JsonObject>)
        ensures
            r is Some == json_members(text@) is Some,
            r matches Some(object) ==> Some(object@) == json_members(text@) && keys_increase(
                object@,
            ),
            forall|members: Members| #[trigger]
                object_text(members) == text@ && keys_increase(members) && own_members(members)
                    ==> json_members(text@) == Some(reread_members(members)),
            carries_back(text@),
            reads_in_order(text@),
    {
        match parse_json(text) {
            Ok(Some(members)) => Some(JsonObject { members }),
            _ => None,
        }
    }

    /// The object that a text writes, or that it writes another value, or why it is no JSON.
    pub fn read(text: &str) -> (r: Result<Option<JsonObject>, String>)
        ensures
            (match r {
                Ok(Some(object)) => json_read(text@) == object_read(object@),
                Ok(None) => json_read(text@) == Ok::<Option<Members>, Seq<char>>(None),
                Err(error) => json_read(text@) == Err::<Option<Members>, _>(error@),
            }),
    {
        match parse_json(text) {
            Ok(Some(members)) => Ok(Some(JsonObject { members })),
            Ok(None) => Ok(None),
            Err(error) => Err(error),
        }
    }

    /// The JSON text of this object.
    pub fn to_text(&self) -> (r: String)
        ensures
            r@ == object_text(self@),
    {
        let ghost all = self@;
        let mut out = String::from_str("{");
        let mut i: usize = 0;
        proof {
            reveal_strlit("{");
            assert(all.take(0) =~= Seq::<(Seq<char>, JsonModel)>::empty());
            assert(out@ =~= seq!['{'] + members_text(all.take(0)));
        }
        while i < self.members.len()
            invariant
                i <= self.members@.len(),
                all == self@,
                all.len() == self.members@.len(),
                out@ == seq!['{'] + members_text(all.take(i as int)),
            decreases self.members@.len() - i,
        {
            let ghost before = out@;
            proof {
                assert(all.take(i + 1).drop_last() =~= all.take(i as int));
                assert(all.take(i + 1).last() == (
                    self.members@[i as int].0@,
                    self.members@[i as int].1@,
                ));
            }
            if i > 0 {
                out.push(',');
            }
            out.append(json_string_text(self.members[i].0.as_str()).as_str());
            out.push(':');
            out.append(value_to_text(&self.members[i].1).as_str());
            proof {
                assert(out@ =~= seq!['{'] + members_text(all.take(i + 1)));
            }
            i += 1;
        }
        out.push('}');
        proof {
            assert(all.take(i as int) =~= all);
            assert(out@ =~= object_text(all));
        }
        out
    }

    /// Where a key stands: the index of its member, or that of the first member behind it.
    fn position(&self, key: &str) -> (r: (usize, bool))
        ensures
            r.0 <= self.members@.len(),
            r.1 ==> r.0 < self.members@.len() && self@[r.0 as int].0 == key@,
            forall|i: int| 0 <= i < r.0 ==> text_less(#[trigger] self@[i].0, key@),
            !r.1 && r.0 < self.members@.len() ==> text_less(key@, self@[r.0 as int].0),
            self@.len() == self.members@.len(),
    {
        let mut i: usize = 0;
        while i < self.members.len()
            invariant
                i <= self.members@.len(),
                self@.len() == self.members@.len(),
                forall|j: int| 0 <= j < i ==> text_less(#[trigger] self@[j].0, key@),
            decreases self.members@.len() - i,
        {
            proof {
                assert(self@[i as int].0 == self.members@[i as int].0@);
            }
            if same_text(self.members[i].0.as_str(), key) {
                return (i, true);
            }
            if str_less(key, self.members[i].0.as_str()) {
                return (i, false);
            }
            proof {
                crate::text::bytes_less_total(
                    vstd::utf8::encode_utf8(self@[i as int].0),
                    vstd::utf8::encode_utf8(key@),
                );
                if vstd::utf8::encode_utf8(self@[i as int].0) == vstd::utf8::encode_utf8(key@) {
                    crate::text::encode_injective(self@[i as int].0, key@);
                }
            }
            i += 1;
        }
        (i, false)
    }

    /// The value of the member with this key.
    pub fn get(&self, key: &str) -> (r: Option<&JsonValue>)
        ensures
            match r {
                Some(value) => member(self@, key@) == Some(value@),
                None => member(self@, key@) is None,
            },
    {
        let (index, found) = self.position(key);
        proof {
            use_type_invariant(self);
            member_at(self@, key@, index as int, found);
        }
        if found {
            Some(&self.members[index].1)
        } else {
            None
        }
    }

    /// Binds `key` to `value`.
    pub fn set(&mut self, key: &str, value: JsonValue)
        ensures
            final(self)@ == with_member(old(self)@, key@, value@),
    {
        let (index, found) = self.position(key);
        let ghost before = self@;
        proof {
            use_type_invariant(&*self);
            with_member_at(self@, key@, value@, index as int, found);
            with_member_ordered(self@, key@, value@);
        }
        let mut members: Vec<(String, JsonValue)> = Vec::new();
        std::mem::swap(&mut members, &mut self.members);
        if found {
            members[index] = (key.to_owned(), value);
        } else {
            members.insert(index, (key.to_owned(), value));
        }
        proof {
            assert(members@.map_values(|m: (String, JsonValue)| (m.0@, m.1@)) =~= with_member(
                before,
                key@,
                value@,
            ));
        }
        self.members = members;
    }

    /// Drops the member with this key.
    pub fn remove(&mut self, key: &str)
        ensures
            final(self)@ == without_member(old(self)@, key@),
    {
        let (index, found) = self.position(key);
        let ghost before = self@;
        proof {
            use_type_invariant(&*self);
            without_member_at(self@, key@, index as int, found);
        }
        if found {
            let mut members: Vec<(String, JsonValue)> = Vec::new();
            std::mem::swap(&mut members, &mut self.members);
            members.remove(index);
            proof {
                assert(members@.map_values(|m: (String, JsonValue)| (m.0@, m.1@))
                    =~= without_member(before, key@));
                assert(keys_increase(without_member(before, key@)));
            }
            self.members = members;
        }
    }

    /// Whether two objects have the same members.
    pub fn same(&self, other: &JsonObject) -> (r: bool)
        ensures
            r == (self@ == other@),
    {
        if self.members.len() != other.members.len() {
            proof {
                assert(self@.len() == self.members@.len());
                assert(other@.len() == other.members@.len());
            }
            return false;
        }
        let mut i: usize = 0;
        while i < self.members.len()
            invariant
                i <= self.members@.len(),
                self.members@.len() == other.members@.len(),
                forall|j: int| 0 <= j < i ==> self@[j] == other@[j],
            decreases self.members@.len() - i,
        {
            proof {
                assert(self@[i as int] == (self.members@[i as int].0@, self.members@[i as int].1@));
                assert(other@[i as int] == (
                    other.members@[i as int].0@,
                    other.members@[i as int].1@,
                ));
            }
            if !same_text(self.members[i].0.as_str(), other.members[i].0.as_str())
                || !self.members[i].1.same(&other.members[i].1) {
                return false;
            }
            i += 1;
        }
        proof {
            assert(self@ =~= other@);
        }
        true
    }

    /// The value of a text member.
    pub fn get_text(&self, key: &str) -> (r: Option<&str>)
        ensures
            match r {
                Some(text) => text_member(self@, key@) == Some(text@),
                None => text_member(self@, key@) is None,
            },
    {
        match self.get(key) {
            Some(JsonValue::Text(text)) => Some(text.as_str()),
            _ => None,
        }
    }

    /// The value of an unsigned integer member.
    pub fn get_unsigned(&self, key: &str) -> (r: Option<u64>)
        ensures
            r == unsigned_member(self@, key@),
    {
        match self.get(key) {
            Some(JsonValue::Unsigned(n)) => Some(*n),
            _ => None,
        }
    }

    /// Binds `key` to a text.
    pub fn set_text(&mut self, key: &str, text: &str)
        ensures
            final(self)@ == with_member(old(self)@, key@, JsonModel::Text(text@)),
    {
        self.set(key, JsonValue::Text(text.to_owned()));
    }
}

impl Clone for JsonObject {
    fn clone(&self) -> (r: Self)
        ensures
            r@ == self@,
    {
        let mut members: Vec<(String, JsonValue)> = Vec::new();
        let mut i: usize = 0;
        while i < self.members.len()
            invariant
                i <= self.members@.len(),
                members@.len() == i,
                forall|j: int|
                    0 <= j < i ==> (#[trigger] members@[j]).0@ == self.members@[j].0@
                        && members@[j].1@ == self.members@[j].1@,
            decreases self.members@.len() - i,
        {
            members.push((self.members[i].0.clone(), self.members[i].1.clone()));
            i += 1;
        }
        proof {
            use_type_invariant(self);
            assert(members@.map_values(|m: (String, JsonValue)| (m.0@, m.1@)) =~= self@);
        }
        JsonObject { members }
    }
}

/// The JSON text of a value.
fn value_to_text(value: &JsonValue) -> (r: String)
    ensures
        r@ == value_text(value@),
{
    match value {
        JsonValue::Null => String::from_str("null"),
        JsonValue::Bool(b) => if *b {
            String::from_str("true")
        } else {
            String::from_str("false")
        },
        JsonValue::Unsigned(n) => decimal_text(*n),
        JsonValue::Text(s) => json_string_text(s.as_str()),
        JsonValue::Offsets(v) => offsets_to_text(v),
        JsonValue::Raw(s) => s.clone(),
    }
}

/// The JSON text of a list of offsets.
fn offsets_to_text(v: &Vec<u64>) -> (r: String)
    ensures
        r@ == value_text(JsonModel::Offsets(v@)),
{
    let mut out = String::new();
    out.push('[');
    let mut i: usize = 0;
    proof {
        assert(out@ =~= seq!['['] + offsets_text(v@.take(0)));
    }
    while i < v.len()
        invariant
            i <= v@.len(),
            out@ == seq!['['] + offsets_text(v@.take(i as int)),
        decreases v@.len() - i,
    {
        proof {
            assert(v@.take(i + 1).drop_last() =~= v@.take(i as int));
        }
        if i > 0 {
            out.push(',');
        }
        out.append(decimal_text(v[i]).as_str());
        proof {
            assert(out@ =~= seq!['['] + offsets_text(v@.take(i + 1)));
        }
        i += 1;
    }
    out.push(']');
    proof {
        assert(v@.take(i as int) =~= v@);
        assert(out@ =~= value_text(JsonModel::Offsets(v@)));
    }
    out
}

/// Looking a key up at its position.
proof fn member_at(members: Members, key: Seq<char>, index: int, found: bool)
    requires
        keys_increase(members),
        0 <= index <= members.len(),
        found ==> index < members.len() && members[index].0 == key,
        forall|i: int| 0 <= i < index ==> text_less(#[trigger] members[i].0, key),
        !found && index < members.len() ==> text_less(key, members[index].0),
    ensures
        member(members, key) == (if found {
            Some(members[index].1)
        } else {
            None
        }),
    decreases members.len(),
{
    if members.len() > 0 {
        let rest = members.drop_first();
        assert forall|i: int, j: int| 0 <= i < j < rest.len() implies text_less(
            #[trigger] rest[i].0,
            #[trigger] rest[j].0,
        ) by {
            assert(rest[i] == members[i + 1]);
            assert(rest[j] == members[j + 1]);
        }
        if index > 0 {
            assert(text_less(members[0].0, key));
            less_differs(members[0].0, key);
            assert forall|i: int| 0 <= i < index - 1 implies text_less(
                #[trigger] rest[i].0,
                key,
            ) by {
                assert(rest[i] == members[i + 1]);
            }
            member_at(rest, key, index - 1, found);
        } else if !found {
            less_differs(key, members[0].0);
            if rest.len() > 0 {
                assert(text_less(members[0].0, members[1].0));
                crate::text::bytes_less_transitive(
                    vstd::utf8::encode_utf8(key),
                    vstd::utf8::encode_utf8(members[0].0),
                    vstd::utf8::encode_utf8(members[1].0),
                );
                assert(rest[0] == members[1]);
            }
            member_at(rest, key, 0, false);
        }
    }
}

/// Texts in strict order differ.
pub proof fn less_differs(a: Seq<char>, b: Seq<char>)
    requires
        text_less(a, b),
    ensures
        a != b,
        !text_less(b, a),
{
    let x = vstd::utf8::encode_utf8(a);
    let y = vstd::utf8::encode_utf8(b);
    crate::text::bytes_less_irreflexive(x);
    if text_less(b, a) {
        crate::text::bytes_less_transitive(x, y, x);
    }
}

/// Binding a key at its position.
proof fn with_member_at(
    members: Members,
    key: Seq<char>,
    value: JsonModel,
    index: int,
    found: bool,
)
    requires
        0 <= index <= members.len(),
        found ==> index < members.len() && members[index].0 == key,
        forall|i: int| 0 <= i < index ==> text_less(#[trigger] members[i].0, key),
        !found && index < members.len() ==> text_less(key, members[index].0),
    ensures
        with_member(members, key, value) == (if found {
            members.update(index, (key, value))
        } else {
            members.insert(index, (key, value))
        }),
    decreases members.len(),
{
    if members.len() == 0 {
        assert(members.insert(0, (key, value)) =~= seq![(key, value)]);
    } else {
        let rest = members.drop_first();
        if index > 0 {
            assert(text_less(members[0].0, key));
            less_differs(members[0].0, key);
            assert forall|i: int| 0 <= i < index - 1 implies text_less(
                #[trigger] rest[i].0,
                key,
            ) by {
                assert(rest[i] == members[i + 1]);
            }
            with_member_at(rest, key, value, index - 1, found);
            if found {
                assert(seq![members[0]] + rest.update(index - 1, (key, value)) =~= members.update(
                    index,
                    (key, value),
                ));
            } else {
                assert(seq![members[0]] + rest.insert(index - 1, (key, value)) =~= members.insert(
                    index,
                    (key, value),
                ));
            }
        } else if found {
            assert(seq![(key, value)] + rest =~= members.update(0, (key, value)));
        } else {
            less_differs(key, members[0].0);
            assert(seq![(key, value)] + members =~= members.insert(0, (key, value)));
        }
    }
}

/// Dropping a key at its position.
proof fn without_member_at(members: Members, key: Seq<char>, index: int, found: bool)
    requires
        keys_increase(members),
        0 <= index <= members.len(),
        found ==> index < members.len() && members[index].0 == key,
        forall|i: int| 0 <= i < index ==> text_less(#[trigger] members[i].0, key),
        !found && index < members.len() ==> text_less(key, members[index].0),
    ensures
        without_member(members, key) == (if found {
            members.remove(index)
        } else {
            members
        }),
    decreases members.len(),
{
    if members.len() > 0 {
        let rest = members.drop_first();
        assert forall|i: int, j: int| 0 <= i < j < rest.len() implies text_less(
            #[trigger] rest[i].0,
            #[trigger] rest[j].0,
        ) by {
            assert(rest[i] == members[i + 1]);
            assert(rest[j] == members[j + 1]);
        }
        if index > 0 {
            assert(text_less(members[0].0, key));
            less_differs(members[0].0, key);
            assert forall|i: int| 0 <= i < index - 1 implies text_less(
                #[trigger] rest[i].0,
                key,
            ) by {
                assert(rest[i] == members[i + 1]);
            }
            without_member_at(rest, key, index - 1, found);
            if found {
                assert(seq![members[0]] + rest.remove(index - 1) =~= members.remove(index));
            } else {
                assert(seq![members[0]] + rest =~= members);
            }
        } else if found {
            assert(rest =~= members.remove(0));
        } else {
            less_differs(key, members[0].0);
            if rest.len() > 0 {
                assert(text_less(members[0].0, members[1].0));
                crate::text::bytes_less_transitive(
                    vstd::utf8::encode_utf8(key),
                    vstd::utf8::encode_utf8(members[0].0),
                    vstd::utf8::encode_utf8(members[1].0),
                );
                assert(rest[0] == members[1]);
            }
            without_member_at(rest, key, 0, false);
            assert(seq![members[0]] + rest =~= members);
        }
    }
}

/// Binding a key keeps the keys in order, and every other key's value.
pub proof fn with_member_ordered(members: Members, key: Seq<char>, value: JsonModel)
    requires
        keys_increase(members),
    ensures
        keys_increase(with_member(members, key, value)),
        member(with_member(members, key, value), key) == Some(value),
        forall|other: Seq<char>|
            other != key ==> #[trigger] member(with_member(members, key, value), other) == member(
                members,
                other,
            ),
        forall|i: int|
            0 <= i < with_member(members, key, value).len() ==> (
            #[trigger] with_member(members, key, value)[i]) == (key, value) || exists|j: int|
                0 <= j < members.len() && members[j] == with_member(members, key, value)[i],
    decreases members.len(),
{
    let result = with_member(members, key, value);
    if members.len() == 0 {
        assert(result.drop_first() =~= members);
    } else {
        let rest = members.drop_first();
        assert forall|i: int, j: int| 0 <= i < j < rest.len() implies text_less(
            #[trigger] rest[i].0,
            #[trigger] rest[j].0,
        ) by {
            assert(rest[i] == members[i + 1]);
            assert(rest[j] == members[j + 1]);
        }
        if members[0].0 == key {
            assert(result.drop_first() =~= rest);
            assert forall|i: int, j: int| 0 <= i < j < result.len() implies text_less(
                #[trigger] result[i].0,
                #[trigger] result[j].0,
            ) by {
                assert(result[j] == members[j]);
                assert(members[i].0 == result[i].0);
            }
            assert forall|i: int| 0 <= i < result.len() && result[i] != (key, value) implies exists|j: int|
                0 <= j < members.len() && members[j] == #[trigger] result[i] by {
                assert(members[i] == result[i]);
            }
        } else if text_less(key, members[0].0) {
            assert(result.drop_first() =~= members);
            assert forall|i: int, j: int| 0 <= i < j < result.len() implies text_less(
                #[trigger] result[i].0,
                #[trigger] result[j].0,
            ) by {
                assert(result[j] == members[j - 1]);
                if i > 0 {
                    assert(result[i] == members[i - 1]);
                } else if j > 1 {
                    assert(text_less(members[0].0, members[j - 1].0));
                    crate::text::bytes_less_transitive(
                        vstd::utf8::encode_utf8(key),
                        vstd::utf8::encode_utf8(members[0].0),
                        vstd::utf8::encode_utf8(members[j - 1].0),
                    );
                }
            }
            assert forall|i: int| 0 <= i < result.len() && result[i] != (key, value) implies exists|j: int|
                0 <= j < members.len() && members[j] == #[trigger] result[i] by {
                assert(members[i - 1] == result[i]);
            }
        } else {
            with_member_ordered(rest, key, value);
            let tail = with_member(rest, key, value);
            assert(result.drop_first() =~= tail);
            assert(result[0] == members[0]);
            crate::text::bytes_less_total(
                vstd::utf8::encode_utf8(members[0].0),
                vstd::utf8::encode_utf8(key),
            );
            if vstd::utf8::encode_utf8(members[0].0) == vstd::utf8::encode_utf8(key) {
                crate::text::encode_injective(members[0].0, key);
            }
            assert forall|i: int, j: int| 0 <= i < j < result.len() implies text_less(
                #[trigger] result[i].0,
                #[trigger] result[j].0,
            ) by {
                assert(result[j] == tail[j - 1]);
                if i > 0 {
                    assert(result[i] == tail[i - 1]);
                } else if tail[j - 1] != (key, value) {
                    let k = choose|k: int| 0 <= k < rest.len() && rest[k] == tail[j - 1];
                    assert(members[k + 1] == rest[k]);
                }
            }
            assert forall|other: Seq<char>| other != key implies #[trigger] member(result, other)
                == member(members, other) by {
                assert(member(tail, other) == member(rest, other));
            }
            assert(member(tail, key) == Some(value));
            assert forall|i: int| 0 <= i < result.len() && result[i] != (key, value) implies exists|j: int|
                0 <= j < members.len() && members[j] == #[trigger] result[i] by {
                if i == 0 {
                    assert(members[0] == result[0]);
                } else {
                    assert(result[i] == tail[i - 1]);
                    let k = choose|k: int| 0 <= k < rest.len() && rest[k] == tail[i - 1];
                    assert(members[k + 1] == rest[k]);
                }
            }
        }
    }
}

/// Dropping a key keeps the keys in order, and every other key's value.
pub proof fn without_member_ordered(members: Members, key: Seq<char>)
    requires
        keys_increase(members),
    ensures
        keys_increase(without_member(members, key)),
        member(without_member(members, key), key) is None,
        forall|other: Seq<char>|
            other != key ==> #[trigger] member(without_member(members, key), other) == member(
                members,
                other,
            ),
        forall|i: int|
            0 <= i < without_member(members, key).len() ==> exists|j: int|
                0 <= j < members.len() && members[j] == #[trigger] without_member(members, key)[i],
    decreases members.len(),
{
    let result = without_member(members, key);
    if members.len() > 0 {
        let rest = members.drop_first();
        assert forall|i: int, j: int| 0 <= i < j < rest.len() implies text_less(
            #[trigger] rest[i].0,
            #[trigger] rest[j].0,
        ) by {
            assert(rest[i] == members[i + 1]);
            assert(rest[j] == members[j + 1]);
        }
        if members[0].0 == key {
            if rest.len() > 0 {
                assert(text_less(members[0].0, members[1].0));
                assert(rest[0] == members[1]);
            }
            member_at(rest, key, 0, false);
            assert forall|i: int| 0 <= i < result.len() implies exists|j: int|
                0 <= j < members.len() && members[j] == #[trigger] result[i] by {
                assert(members[i + 1] == result[i]);
            }
        } else {
            without_member_ordered(rest, key);
            let tail = without_member(rest, key);
            assert(result.drop_first() =~= tail);
            assert(result[0] == members[0]);
            assert forall|i: int, j: int| 0 <= i < j < result.len() implies text_less(
                #[trigger] result[i].0,
                #[trigger] result[j].0,
            ) by {
                assert(result[j] == tail[j - 1]);
                if i > 0 {
                    assert(result[i] == tail[i - 1]);
                } else {
                    let k = choose|k: int| 0 <= k < rest.len() && rest[k] == tail[j - 1];
                    assert(members[k + 1] == rest[k]);
                }
            }
            assert forall|other: Seq<char>| other != key implies #[trigger] member(result, other)
                == member(members, other) by {
                assert(member(tail, other) == member(rest, other));
            }
            assert(member(tail, key) is None);
            assert forall|i: int| 0 <= i < result.len() implies exists|j: int|
                0 <= j < members.len() && members[j] == #[trigger] result[i] by {
                if i == 0 {
                    assert(members[0] == result[0]);
                } else {
                    assert(result[i] == tail[i - 1]);
                    let k = choose|k: int| 0 <= k < rest.len() && rest[k] == tail[i - 1];
                    assert(members[k + 1] == rest[k]);
                }
            }
        }
    }
}

} // verus!
