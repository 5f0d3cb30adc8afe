//! JSON values: what requests are read from and answers are written to.
use vstd::prelude::*;
#[allow(unused_imports)]
use vstd::string::*;

#[allow(unused_imports)]
use crate::engine_api;
#[allow(unused_imports)]
use crate::text;

verus! {

/// A JSON value. A number is an integer where it is written as one that fits;
/// any other number is kept as its numeral.
pub enum Json {
    Null,
    Bool(bool),
    Int(i64),
    Uint(u64),
    Real(String),
    Text(String),
    List(Vec<Json>),
    Object(Vec<(String, Json)>),
}

/// A JSON value as it is reasoned about.
pub enum JsonView {
    Null,
    Bool(bool),
    Int(int),
    Uint(int),
    Real(Seq<char>),
    Text(Seq<char>),
    List(Seq<JsonView>),
    Object(Seq<(Seq<char>, JsonView)>),
}

impl Json {
    pub open spec fn view(&self) -> JsonView
        decreases self,
    {
        match self {
            Json::Null => JsonView::Null,
            Json::Bool(b) => JsonView::Bool(*b),
            Json::Int(i) => JsonView::Int(*i as int),
            Json::Uint(u) => JsonView::Uint(*u as int),
            Json::Real(t) => JsonView::Real(t@),
            Json::Text(t) => JsonView::Text(t@),
            Json::List(items) => JsonView::List(
                Seq::new(
                    items@.len(),
                    |i: int|
                        if 0 <= i < items@.len() {
                            items@[i].view()
                        } else {
                            JsonView::Null
                        },
                ),
            ),
            Json::Object(members) => JsonView::Object(
                Seq::new(
                    members@.len(),
                    |i: int|
                        if 0 <= i < members@.len() {
                            (members@[i].0@, members@[i].1.view())
                        } else {
                            (Seq::empty(), JsonView::Null)
                        },
                ),
            ),
        }
    }
}

/// The views of several values.
pub open spec fn views(items: Seq<Json>) -> Seq<JsonView> {
    Seq::new(items.len(), |i: int| items[i]@)
}

impl JsonView {
    /// The first member of an object that has the name.
    pub open spec fn member(self, name: Seq<char>) -> Option<JsonView> {
        match self {
            JsonView::Object(members) => first_member(members, name),
            _ => None,
        }
    }

    pub open spec fn integer(self) -> Option<int> {
        match self {
            JsonView::Int(i) => Some(i),
            _ => None,
        }
    }
}

/// The value of the first member with the name.
pub open spec fn first_member(members: Seq<(Seq<char>, JsonView)>, name: Seq<char>) -> Option<
    JsonView,
>
    decreases members.len(),
{
    if members.len() == 0 {
        None
    } else if members[0].0 == name {
        Some(members[0].1)
    } else {
        first_member(members.skip(1), name)
    }
}

/// A member is found under its name, where no earlier one has that name.
pub proof fn a_member_is_found(members: Seq<(Seq<char>, JsonView)>, i: int)
    requires
        0 <= i < members.len(),
        forall|j: int| 0 <= j < i ==> (#[trigger] members[j]).0 != members[i].0,
    ensures
        JsonView::Object(members).member(members[i].0) == Some(members[i].1),
    decreases i,
{
    if i > 0 {
        let rest = members.skip(1);
        assert(members[0].0 != members[i].0);
        assert forall|j: int| 0 <= j < i - 1 implies (#[trigger] rest[j]).0 != rest[i - 1].0 by {
            assert(rest[j] == members[j + 1]);
        }
        a_member_is_found(rest, i - 1);
    }
}

/// Nothing is found under a name that no member has.
pub proof fn no_member_is_made_up(members: Seq<(Seq<char>, JsonView)>, name: Seq<char>)
    requires
        forall|j: int| 0 <= j < members.len() ==> (#[trigger] members[j]).0 != name,
    ensures
        JsonView::Object(members).member(name) is None,
    decreases members.len(),
{
    if members.len() > 0 {
        let rest = members.skip(1);
        assert(members[0].0 != name);
        assert forall|j: int| 0 <= j < rest.len() implies (#[trigger] rest[j]).0 != name by {
            assert(rest[j] == members[j + 1]);
        }
        no_member_is_made_up(rest, name);
    }
}

/// What is found under a name is the value of a member with that name.
pub proof fn what_is_found_is_a_member(members: Seq<(Seq<char>, JsonView)>, name: Seq<char>) -> (i:
    int)
    requires
        JsonView::Object(members).member(name) is Some,
    ensures
        0 <= i < members.len(),
        members[i].0 == name,
        JsonView::Object(members).member(name) == Some(members[i].1),
    decreases members.len(),
{
    if members[0].0 == name {
        0
    } else {
        let rest = members.skip(1);
        let i = what_is_found_is_a_member(rest, name);
        assert(rest[i] == members[i + 1]);
        i + 1
    }
}

/// What a value holds under a name is a value itself.
pub(crate) proof fn lemma_member_value(value: Json, name: Seq<char>) -> (member: Json)
    requires
        value@.member(name) is Some,
    ensures
        value@.member(name) == Some(member@),
{
    let i = what_is_found_is_a_member(value@->Object_0, name);
    value->Object_0@[i].1
}

impl Json {
    /// The named member of an object; nothing of any other value.
    pub fn get(&self, name: &str) -> (r: Option<&Json>)
        ensures
            match r {
                Some(v) => self@.member(name@) == Some(v@),
                None => self@.member(name@) is None,
            },
    {
        match self {
            Json::Object(members) => {
                let ghost all = self@->Object_0;
                let mut i: usize = 0;
                assert(all.skip(0) =~= all);
                while i < members.len()
                    invariant
                        i <= members.len(),
                        self@ == JsonView::Object(all),
                        self == Json::Object(*members),
                        all.len() == members@.len(),
                        first_member(all, name@) == first_member(all.skip(i as int), name@),
                    decreases members.len() - i,
                {
                    assert(all[i as int] == (members@[i as int].0@, members@[i as int].1@));
                    if text::same(members[i].0.as_str(), name) {
                        return Some(&members[i].1);
                    }
                    assert(all.skip(i as int).skip(1) =~= all.skip(i as int + 1));
                    i = i + 1;
                }
                None
            },
            _ => None,
        }
    }

    pub fn as_i64(&self) -> (r: Option<i64>)
        ensures
            match r {
                Some(i) => self@ == JsonView::Int(i as int),
                None => self@ !is Int,
            },
    {
        match self {
            Json::Int(i) => Some(*i),
            _ => None,
        }
    }

    pub fn as_str(&self) -> (r: Option<&str>)
        ensures
            match r {
                Some(t) => self@ == JsonView::Text(t@),
                None => self@ !is Text,
            },
    {
        match self {
            Json::Text(t) => Some(t.as_str()),
            _ => None,
        }
    }

    pub fn as_bool(&self) -> (r: Option<bool>)
        ensures
            match r {
                Some(b) => self@ == JsonView::Bool(b),
                None => self@ !is Bool,
            },
    {
        match self {
            Json::Bool(b) => Some(*b),
            _ => None,
        }
    }

    pub fn as_array(&self) -> (r: Option<&Vec<Json>>)
        ensures
            match r {
                Some(items) => self@ == JsonView::List(views(items@)),
                None => self@ !is List,
            },
    {
        match self {
            Json::List(items) => {
                assert(self@->List_0 =~= views(items@));
                Some(items)
            },
            _ => None,
        }
    }

    pub fn is_null(&self) -> (r: bool)
        ensures
            r == (self@ is Null),
    {
        match self {
            Json::Null => true,
            _ => false,
        }
    }
}

/// A text value.
pub fn string(t: &str) -> (r: Json)
    ensures
        r@ == JsonView::Text(t@),
{
    Json::Text(String::from_str(t))
}

/// A whole number.
pub open spec fn number(n: int) -> JsonView {
    if n <= i64::MAX {
        JsonView::Int(n)
    } else {
        JsonView::Uint(n)
    }
}

pub fn unsigned(n: u64) -> (r: Json)
    ensures
        r@ == number(n as int),
{
    if n <= 9223372036854775807 {
        Json::Int(n as i64)
    } else {
        Json::Uint(n)
    }
}

/// A list of values.
pub fn list(items: Vec<Json>) -> (r: Json)
    ensures
        r@ == JsonView::List(views(items@)),
{
    let r = Json::List(items);
    assert(r@->List_0 =~= views(items@));
    r
}

/// A list of texts.
pub open spec fn text_list(items: Seq<Seq<char>>) -> JsonView {
    JsonView::List(Seq::new(items.len(), |i: int| JsonView::Text(items[i])))
}

/// Bytes as a list of numbers.
pub open spec fn byte_list(bytes: Seq<u8>) -> JsonView {
    JsonView::List(Seq::new(bytes.len(), |i: int| number(bytes[i] as int)))
}

/// Bytes as a list of numbers.
pub fn of_bytes(bytes: &[u8]) -> (r: Json)
    ensures
        r@ == byte_list(bytes@),
{
    let mut out: Vec<Json> = Vec::new();
    let mut i: usize = 0;
    while i < bytes.len()
        invariant
            i <= bytes@.len(),
            out@.len() == i,
            forall|k: int|
                0 <= k < i ==> (#[trigger] out@[k])@ == number(bytes@[k] as int),
        decreases bytes.len() - i,
    {
        out.push(unsigned(bytes[i] as u64));
        i = i + 1;
    }
    assert(views(out@) =~= byte_list(bytes@)->List_0);
    list(out)
}

/// Pairs of texts.
pub open spec fn pair_list(items: Seq<(String, String)>) -> JsonView {
    JsonView::List(
        Seq::new(
            items.len(),
            |i: int|
                JsonView::List(
                    seq![JsonView::Text(items[i].0@), JsonView::Text(items[i].1@)],
                ),
        ),
    )
}

/// Pairs of texts.
pub fn of_pairs(items: &Vec<(String, String)>) -> (r: Json)
    ensures
        r@ == pair_list(items@),
{
    let mut out: Vec<Json> = Vec::new();
    let mut i: usize = 0;
    while i < items.len()
        invariant
            i <= items@.len(),
            out@.len() == i,
            forall|k: int|
                0 <= k < i ==> (#[trigger] out@[k])@ == JsonView::List(
                    seq![JsonView::Text(items@[k].0@), JsonView::Text(items@[k].1@)],
                ),
        decreases items.len() - i,
    {
        let mut pair: Vec<Json> = Vec::new();
        pair.push(string(items[i].0.as_str()));
        pair.push(string(items[i].1.as_str()));
        assert(views(pair@) =~= seq![
            JsonView::Text(items@[i as int].0@),
            JsonView::Text(items@[i as int].1@),
        ]);
        out.push(list(pair));
        i = i + 1;
    }
    assert(views(out@) =~= pair_list(items@)->List_0);
    list(out)
}

/// Texts as a list.
pub fn of_texts(items: &Vec<String>) -> (r: Json)
    ensures
        r@ == text_list(text::texts(items@)),
{
    let mut out: Vec<Json> = Vec::new();
    let mut i: usize = 0;
    while i < items.len()
        invariant
            i <= items@.len(),
            out@.len() == i,
            forall|k: int| 0 <= k < i ==> (#[trigger] out@[k])@ == JsonView::Text(items@[k]@),
        decreases items.len() - i,
    {
        out.push(string(items[i].as_str()));
        i = i + 1;
    }
    assert(views(out@) =~= text_list(text::texts(items@))->List_0);
    list(out)
}

/// An object that is being written, member after member.
pub struct Members {
    members: Vec<(String, Json)>,
}

impl View for Members {
    type V = Seq<(Seq<char>, JsonView)>;

    closed spec fn view(&self) -> Seq<(Seq<char>, JsonView)> {
        Seq::new(self.members@.len(), |i: int| (self.members@[i].0@, self.members@[i].1@))
    }
}

impl Members {
    pub fn new() -> (r: Self)
        ensures
            r@ == Seq::<(Seq<char>, JsonView)>::empty(),
    {
        let r = Members { members: Vec::new() };
        assert(r@ =~= Seq::<(Seq<char>, JsonView)>::empty());
        r
    }

    pub fn put(&mut self, name: &str, value: Json)
        ensures
            final(self)@ == old(self)@.push((name@, value@)),
    {
        let ghost before = self@;
        self.members.push((String::from_str(name), value));
        assert(self@ =~= before.push((name@, value@)));
    }

    pub fn object(self) -> (r: Json)
        ensures
            r@ == JsonView::Object(self@),
    {
        let ghost before = self@;
        let r = Json::Object(self.members);
        assert(r@->Object_0 =~= before);
        r
    }
}

// ---- JSON in ASCII -------------------------------------------------------

/// A UTF-16 unit as JSON escapes it.
pub open spec fn escaped_unit(unit: nat) -> Seq<char> {
    "\\u"@ + engine_api::hex_numeral(unit, 4)
}

/// A character as JSON in ASCII writes it: one of ASCII as it is, any other as
/// its UTF-16 units.
pub open spec fn ascii_char(c: char) -> Seq<char> {
    let code = c as nat;
    if code < 128 {
        seq![c]
    } else if code < 0x10000 {
        escaped_unit(code)
    } else {
        let rest = (code - 0x10000) as nat;
        escaped_unit(0xD800 + rest / 1024) + escaped_unit(0xDC00 + rest % 1024)
    }
}

/// JSON in ASCII.
pub open spec fn ascii(json: Seq<char>) -> Seq<char>
    decreases json.len(),
{
    if json.len() == 0 {
        seq![]
    } else {
        ascii(json.drop_last()) + ascii_char(json.last())
    }
}

/// JSON in ASCII holds nothing but ASCII.
pub proof fn ascii_is_ascii(json: Seq<char>)
    ensures
        forall|i: int| 0 <= i < ascii(json).len() ==> ((#[trigger] ascii(json)[i]) as nat) < 128,
    decreases json.len(),
{
    if json.len() > 0 {
        ascii_is_ascii(json.drop_last());
        lemma_ascii_char(json.last());
        let head = ascii(json.drop_last());
        let tail = ascii_char(json.last());
        assert(ascii(json) == head + tail);
        assert forall|i: int| 0 <= i < ascii(json).len() implies ((
        #[trigger] ascii(json)[i]) as nat) < 128 by {
            if i < head.len() {
                assert(ascii(json)[i] == head[i]);
            } else {
                assert(ascii(json)[i] == tail[i - head.len()]);
            }
        }
    }
}

proof fn lemma_ascii_char(c: char)
    ensures
        forall|i: int| 0 <= i < ascii_char(c).len() ==> ((#[trigger] ascii_char(c)[i]) as nat) < 128,
{
    let code = c as nat;
    if code < 128 {
    } else if code < 0x10000 {
        lemma_escaped_unit(code);
    } else {
        let rest = (code - 0x10000) as nat;
        lemma_escaped_unit(0xD800 + rest / 1024);
        lemma_escaped_unit(0xDC00 + rest % 1024);
    }
}

proof fn lemma_escaped_unit(unit: nat)
    ensures
        forall|i: int|
            0 <= i < escaped_unit(unit).len() ==> ((#[trigger] escaped_unit(unit)[i]) as nat) < 128,
{
    reveal_strlit("\\u");
    reveal_with_fuel(engine_api::hex_numeral, 5);
}

fn unit_text(unit: u32) -> (r: String)
    requires
        unit < 0x10000,
    ensures
        r@ == escaped_unit(unit as nat),
{
    let d0: u32 = unit % 16;
    let d1: u32 = (unit / 16) % 16;
    let d2: u32 = (unit / 256) % 16;
    let d3: u32 = unit / 4096;
    proof {
        reveal_with_fuel(engine_api::hex_numeral, 5);
        let n = unit as nat;
        assert(n / 16 / 16 == n / 256 && n / 16 / 16 / 16 == n / 4096) by (nonlinear_arith)
            requires
                n >= 0,
        ;
        assert(d3 < 16);
    }
    let mut r = String::from_str("\\u");
    r.push(text::digit_to_char(d3 as u8));
    r.push(text::digit_to_char(d2 as u8));
    r.push(text::digit_to_char(d1 as u8));
    r.push(text::digit_to_char(d0 as u8));
    assert(r@ =~= escaped_unit(unit as nat));
    r
}

/// JSON in ASCII: metadata of the bucket takes no other characters.
pub fn ascii_json(json: &str) -> (r: String)
    ensures
        r@ == ascii(json@),
{
    let chars = text::chars_of(json);
    let mut r = String::new();
    let mut i: usize = 0;
    assert(json@.take(0) =~= Seq::<char>::empty());
    while i < chars.len()
        invariant
            i <= chars@.len(),
            chars@ == json@,
            r@ == ascii(json@.take(i as int)),
        decreases chars.len() - i,
    {
        proof {
            assert(json@.take(i + 1).drop_last() =~= json@.take(i as int));
            assert(json@.take(i + 1).last() == json@[i as int]);
        }
        push_ascii(&mut r, chars[i]);
        i = i + 1;
    }
    assert(json@.take(i as int) =~= json@);
    r
}

fn push_ascii(r: &mut String, c: char)
    ensures
        final(r)@ == old(r)@ + ascii_char(c),
{
    let code: u32 = c as u32;
    if code < 128 {
        r.push(c);
    } else if code < 0x10000 {
        r.append(unit_text(code).as_str());
    } else {
        let rest: u32 = code - 0x10000;
        r.append(unit_text(0xD800 + rest / 1024).as_str());
        r.append(unit_text(0xDC00 + rest % 1024).as_str());
    }
    assert(r@ =~= old(r)@ + ascii_char(c));
}

// ---- the outside parser and printer --------------------------------------

/// What `serde_json::from_str` reads a text as: a value, or the words of its
/// error.
pub uninterp spec fn parsed_json(text: Seq<char>) -> Result<JsonView, Seq<char>>;

/// The text `serde_json::Value::to_string` writes a value as.
pub uninterp spec fn printed_json(value: JsonView) -> Seq<char>;

/// The outside crate's own value, which only passes through.
#[verifier::external_type_specification]
#[verifier::external_body]
pub struct ExValue(serde_json::Value);

/// A `serde_json::Value` as this crate's own value, variant by variant.
/// Nothing is claimed of it: what a parse gives is named as a whole.
#[verifier::external_body]
fn from_value(value: serde_json::Value) -> (r: Json) {
    match value {
        serde_json::Value::Null => Json::Null,
        serde_json::Value::Bool(b) => Json::Bool(b),
        serde_json::Value::Number(n) => match (n.as_i64(), n.as_u64()) {
            (Some(i), _) => Json::Int(i),
            (None, Some(u)) => Json::Uint(u),
            (None, None) => Json::Real(n.to_string()),
        },
        serde_json::Value::String(t) => Json::Text(t),
        serde_json::Value::Array(items) => Json::List(items.into_iter().map(from_value).collect()),
        serde_json::Value::Object(members) => Json::Object(
            members.into_iter().map(|(k, v)| (k, from_value(v))).collect(),
        ),
    }
}

/// This crate's own value as a `serde_json::Value`, variant by variant.
/// Nothing is claimed of it: the text a value prints as is named as a whole.
#[verifier::external_body]
fn into_value(value: &Json) -> (r: serde_json::Value) {
    match value {
        Json::Null => serde_json::Value::Null,
        Json::Bool(b) => serde_json::Value::from(*b),
        Json::Int(i) => serde_json::Value::from(*i),
        Json::Uint(u) => serde_json::Value::from(*u),
        Json::Real(t) => serde_json::from_str(t).unwrap_or_default(),
        Json::Text(t) => serde_json::Value::from(t.as_str()),
        Json::List(items) => items.iter().map(into_value).collect(),
        Json::Object(members) => members.iter().map(|(k, v)| (k.clone(), into_value(v))).collect(),
    }
}

/// What a parse came to, as it is reasoned about.
pub open spec fn parse_view(r: Result<Json, String>) -> Result<JsonView, Seq<char>> {
    match r {
        Ok(value) => Ok(value@),
        Err(error) => Err(error@),
    }
}

/// What `serde_json::from_str` reads a text as, as a list of pairs of texts.
pub uninterp spec fn parsed_pairs(text: Seq<char>) -> Result<
    Seq<(Seq<char>, Seq<char>)>,
    Seq<char>,
>;

/// What `serde_json::from_str` reads a text as, as a list of texts.
pub uninterp spec fn parsed_texts(text: Seq<char>) -> Result<Seq<Seq<char>>, Seq<char>>;

/// What `serde_json::from_str` reads a text as, as a list of numbers.
pub uninterp spec fn parsed_numbers(text: Seq<char>) -> Result<Seq<u32>, Seq<char>>;

pub open spec fn pairs_view(r: Result<Vec<(String, String)>, String>) -> Result<
    Seq<(Seq<char>, Seq<char>)>,
    Seq<char>,
> {
    match r {
        Ok(pairs) => Ok(pairs@.map_values(|p: (String, String)| (p.0@, p.1@))),
        Err(error) => Err(error@),
    }
}

pub open spec fn texts_view(r: Result<Vec<String>, String>) -> Result<Seq<Seq<char>>, Seq<char>> {
    match r {
        Ok(texts) => Ok(text::texts(texts@)),
        Err(error) => Err(error@),
    }
}

pub open spec fn numbers_view(r: Result<Vec<u32>, String>) -> Result<Seq<u32>, Seq<char>> {
    match r {
        Ok(numbers) => Ok(numbers@),
        Err(error) => Err(error@),
    }
}

/// Reads a list of pairs of texts with `serde_json::from_str`. What comes out,
/// list or error, is a function of the text.
#[verifier::external_body]
pub(crate) fn parse_pairs(text: &str) -> (r: Result<Vec<(String, String)>, String>)
    ensures
        pairs_view(r) == parsed_pairs(text@),
{
    serde_json::from_str(text).map_err(|e| e.to_string())
}

/// Reads a list of texts with `serde_json::from_str`. What comes out, list or
/// error, is a function of the text.
#[verifier::external_body]
pub(crate) fn parse_texts(text: &str) -> (r: Result<Vec<String>, String>)
    ensures
        texts_view(r) == parsed_texts(text@),
{
    serde_json::from_str(text).map_err(|e| e.to_string())
}

/// Reads a list of numbers with `serde_json::from_str`. What comes out, list
/// or error, is a function of the text.
#[verifier::external_body]
pub(crate) fn parse_numbers(text: &str) -> (r: Result<Vec<u32>, String>)
    ensures
        numbers_view(r) == parsed_numbers(text@),
{
    serde_json::from_str(text).map_err(|e| e.to_string())
}

/// Reads a text with `serde_json::from_str`. What comes out, value or error,
/// is a function of the text.
#[verifier::external_body]
pub(crate) fn parse_json(text: &str) -> (r: Result<Json, String>)
    ensures
        parse_view(r) == parsed_json(text@),
{
    serde_json::from_str::<serde_json::Value>(text).map(from_value).map_err(|e| e.to_string())
}

/// Writes a value with the `Display` of `serde_json::Value`. The text is a
/// function of the value.
#[verifier::external_body]
pub(crate) fn json_text(value: &Json) -> (r: String)
    ensures
        r@ == printed_json(value@),
{
    into_value(value).to_string()
}

// ---- objects whose members keep their order ------------------------------

/// One member of an object's text; its value is written already.
pub open spec fn member_text(name: Seq<char>, value: Seq<char>) -> Seq<char> {
    printed_json(JsonView::Text(name)) + ":"@ + value
}

pub open spec fn members_text(members: Seq<(Seq<char>, Seq<char>)>) -> Seq<char>
    decreases members.len(),
{
    if members.len() == 0 {
        seq![]
    } else {
        let last = member_text(members.last().0, members.last().1);
        if members.len() == 1 {
            last
        } else {
            members_text(members.drop_last()) + ","@ + last
        }
    }
}

/// The text of an object whose members stand in a given order, without white
/// space; the values are written already.
pub open spec fn object_text(members: Seq<(Seq<char>, Seq<char>)>) -> Seq<char> {
    "{"@ + members_text(members) + "}"@
}

/// The text of an object that is being written.
pub struct ObjectText {
    text: String,
    empty: bool,
    members: Ghost<Seq<(Seq<char>, Seq<char>)>>,
}

impl View for ObjectText {
    type V = Seq<(Seq<char>, Seq<char>)>;

    closed spec fn view(&self) -> Seq<(Seq<char>, Seq<char>)> {
        self.members@
    }
}

impl ObjectText {
    pub closed spec fn wf(&self) -> bool {
        self.text@ == "{"@ + members_text(self@) && self.empty == (self@.len() == 0)
    }

    pub fn new() -> (r: Self)
        ensures
            r.wf(),
            r@ == Seq::<(Seq<char>, Seq<char>)>::empty(),
    {
        let r = ObjectText {
            text: String::from_str("{"),
            empty: true,
            members: Ghost(Seq::empty()),
        };
        assert("{"@ + members_text(r@) =~= "{"@);
        r
    }

    /// Adds a member behind the others; its value is written already.
    pub fn put(&mut self, name: &str, value: &str)
        requires
            old(self).wf(),
        ensures
            final(self).wf(),
            final(self)@ == old(self)@.push((name@, value@)),
    {
        let ghost before = self@;
        let ghost now = before.push((name@, value@));
        if !self.empty {
            self.text.append(",");
        }
        let written = json_text(&string(name));
        self.text.append(written.as_str());
        self.text.append(":");
        self.text.append(value);
        self.empty = false;
        self.members = Ghost(now);
        proof {
            assert(now.drop_last() =~= before);
            assert(self.text@ =~= "{"@ + members_text(now));
        }
    }

    /// Adds a member where there is a text for it.
    pub fn put_text(&mut self, name: &str, value: &Option<String>)
        requires
            old(self).wf(),
        ensures
            final(self).wf(),
            final(self)@ == old(self)@ + (match value {
                Some(t) => seq![(name@, printed_json(JsonView::Text(t@)))],
                None => seq![],
            }),
    {
        let ghost before = self@;
        match value {
            Some(t) => {
                let written = json_text(&string(t.as_str()));
                self.put(name, written.as_str());
                assert(self@ =~= before + seq![(name@, printed_json(JsonView::Text(t@)))]);
            },
            None => {
                assert(self@ =~= before + Seq::<(Seq<char>, Seq<char>)>::empty());
            },
        }
    }

    pub fn finish(self) -> (r: String)
        requires
            self.wf(),
        ensures
            r@ == object_text(self@),
    {
        let mut text = self.text;
        text.append("}");
        text
    }
}

/// A character is escaped so that it reads back: one of ASCII stays, one of the
/// first plane is one unit in four hexadecimal digits, and any other is two
/// units that together give its code.
pub proof fn escapes_read_back(c: char)
    ensures
        (c as nat) < 128 ==> ascii_char(c) == seq![c],
        128 <= (c as nat) < 0x10000 ==> {
            let escaped = ascii_char(c);
            &&& escaped.len() == 6 && escaped[0] == '\\' && escaped[1] == 'u'
            &&& engine_api::hex_number(escaped.skip(2)) == Some(c as nat)
        },
        0x10000 <= (c as nat) ==> {
            let escaped = ascii_char(c);
            let high = engine_api::hex_number(escaped.subrange(2, 6));
            let low = engine_api::hex_number(escaped.subrange(8, 12));
            &&& escaped.len() == 12
            &&& escaped[0] == '\\' && escaped[1] == 'u' && escaped[6] == '\\' && escaped[7] == 'u'
            &&& high is Some && 0xD800 <= high->Some_0 < 0xDC00
            &&& low is Some && 0xDC00 <= low->Some_0 < 0xE000
            &&& 0x10000 + (high->Some_0 - 0xD800) * 1024 + (low->Some_0 - 0xDC00) == c as nat
        },
{
    let code = c as nat;
    reveal_strlit("\\u");
    if code >= 0x10000 {
        let rest = (code - 0x10000) as nat;
        let a = 0xD800 + rest / 1024;
        let b = 0xDC00 + rest % 1024;
        assert(code <= 0x10FFFF);
        assert(rest / 1024 < 1024);
        lemma_unit_reads_back(a);
        lemma_unit_reads_back(b);
        let escaped = ascii_char(c);
        assert(escaped =~= escaped_unit(a) + escaped_unit(b));
        assert(escaped.subrange(2, 6) =~= escaped_unit(a).skip(2));
        assert(escaped.subrange(8, 12) =~= escaped_unit(b).skip(2));
    } else if code >= 128 {
        lemma_unit_reads_back(code);
    }
}

proof fn lemma_unit_reads_back(unit: nat)
    requires
        unit < 0x10000,
    ensures
        escaped_unit(unit).len() == 6,
        escaped_unit(unit)[0] == '\\',
        escaped_unit(unit)[1] == 'u',
        engine_api::hex_number(escaped_unit(unit).skip(2)) == Some(unit),
{
    reveal_strlit("\\u");
    engine_api::lemma_hex_numeral(unit, 4);
    assert(vstd::arithmetic::power::pow(16, 4) == 0x10000) by {
        reveal_with_fuel(vstd::arithmetic::power::pow, 5);
    }
    assert(escaped_unit(unit).skip(2) =~= engine_api::hex_numeral(unit, 4));
}

/// JSON in ASCII is written character by character, and what is ASCII already
/// stays as it is.
pub proof fn ascii_is_written_in_order(a: Seq<char>, b: Seq<char>)
    ensures
        ascii(a + b) == ascii(a) + ascii(b),
        (forall|i: int| 0 <= i < a.len() ==> ((#[trigger] a[i]) as nat) < 128) ==> ascii(a) == a,
    decreases a.len() + b.len(),
{
    if b.len() == 0 {
        assert(a + b =~= a);
        assert(ascii(a) + ascii(b) =~= ascii(a));
        if a.len() > 0 {
            ascii_is_written_in_order(a.drop_last(), b);
            if forall|i: int| 0 <= i < a.len() ==> ((#[trigger] a[i]) as nat) < 128 {
                assert forall|i: int| 0 <= i < a.drop_last().len() implies ((
                #[trigger] a.drop_last()[i]) as nat) < 128 by {
                    assert(a.drop_last()[i] == a[i]);
                }
                assert((a[a.len() - 1] as nat) < 128);
                assert(a.drop_last() + seq![a.last()] =~= a);
            }
        } else {
            assert(ascii(a) =~= a);
        }
    } else {
        ascii_is_written_in_order(a, b.drop_last());
        assert((a + b).drop_last() =~= a + b.drop_last());
        assert((a + b).last() == b.last());
        assert(ascii(a + b) =~= ascii(a) + ascii(b));
    }
}

/// Lists of texts, of bytes and of pairs hold what they are made of, in order;
/// a pair is its name and then its value.
pub proof fn lists_hold_what_they_are_made_of(
    texts: Seq<Seq<char>>,
    bytes: Seq<u8>,
    pairs: Seq<(String, String)>,
)
    ensures
        text_list(texts) matches JsonView::List(items) && items.len() == texts.len() && forall|i: int|
            0 <= i < items.len() ==> #[trigger] items[i] == JsonView::Text(texts[i]),
        byte_list(bytes) matches JsonView::List(items) && items.len() == bytes.len() && forall|i: int|
            0 <= i < items.len() ==> #[trigger] items[i] == JsonView::Int(bytes[i] as int),
        pair_list(pairs) matches JsonView::List(items) && items.len() == pairs.len() && forall|i: int|
            0 <= i < items.len() ==> ((#[trigger] items[i]) matches JsonView::List(pair)
                && pair.len() == 2 && pair[0] == JsonView::Text(pairs[i].0@) && pair[1]
                == JsonView::Text(pairs[i].1@)),
{
}

/// A whole number is the same number however large it is.
pub proof fn numbers_are_kept(n: u64)
    ensures
        n <= i64::MAX ==> number(n as int) == JsonView::Int(n as int),
        n > i64::MAX ==> number(n as int) == JsonView::Uint(n as int),
{
}

} // verus!
