//! The headers of HTTP messages: what `http::HeaderMap` holds and does, and the
//! headers that a change of protocol carries on.
use vstd::prelude::*;
#[allow(unused_imports)]
use vstd::string::*;

#[allow(unused_imports)]
use crate::text;

verus! {

/// The values of each header, by its name, in the order in which they stand.
pub type HeadersView = Map<Seq<char>, Seq<Seq<u8>>>;

/// A map of headers, which stays closed.
#[verifier::external_type_specification]
#[verifier::external_body]
#[verifier::reject_recursive_types(T)]
pub struct ExHeaderMap<T>(http::HeaderMap<T>);

/// A header's value, which only stands in the map's type.
#[verifier::external_type_specification]
#[verifier::external_body]
pub struct ExHeaderValue(http::HeaderValue);

/// What a map of headers holds: the values of each name, first to last.
pub uninterp spec fn held(
    map: http::HeaderMap<http::HeaderValue>,
) -> Map<Seq<char>, Seq<Seq<u8>>>;

/// Whether a header's name may hold a character.
pub open spec fn token_char(c: char) -> bool {
    ||| 'a' <= c <= 'z'
    ||| 'A' <= c <= 'Z'
    ||| '0' <= c <= '9'
    ||| c == '!' || c == '#' || c == '$' || c == '%' || c == '&' || c == '\''
    ||| c == '*' || c == '+' || c == '-' || c == '.' || c == '^' || c == '_'
    ||| c == '`' || c == '|' || c == '~'
}

/// Whether a text may be a header's name.
pub open spec fn valid_name(name: Seq<char>) -> bool {
    &&& 0 < name.len() <= 65535
    &&& forall|i: int| 0 <= i < name.len() ==> token_char(#[trigger] name[i])
}

/// Whether a text is a header's name as it is kept: without capitals.
pub open spec fn kept_name(name: Seq<char>) -> bool {
    &&& valid_name(name)
    &&& text::lower(name) == name
}

/// Whether a byte may stand in a header's value.
pub open spec fn value_byte(b: u8) -> bool {
    (b >= 32 && b != 127) || b == 9
}

/// Whether a text may be a header's value.
pub open spec fn valid_value(value: Seq<char>) -> bool {
    forall|i: int|
        0 <= i < vstd::utf8::encode_utf8(value).len() ==> value_byte(
            #[trigger] vstd::utf8::encode_utf8(value)[i],
        )
}

/// Whether a map surely has room for more names.
pub open spec fn room(headers: HeadersView, more: nat) -> bool {
    headers.dom().finite() && headers.dom().len() + more <= 6554
}

pub open spec fn no_headers() -> HeadersView {
    Map::empty()
}

/// Whether there are so many headers, each name counted once.
pub open spec fn has_names(headers: HeadersView, count: nat) -> bool {
    headers.dom().finite() && headers.dom().len() == count
}

/// Whether names are those of some headers, each once.
pub open spec fn names_once(names: Seq<Seq<char>>, headers: HeadersView) -> bool {
    &&& names.no_duplicates()
    &&& forall|name: Seq<char>| #[trigger] headers.contains_key(name) <==> names.contains(name)
}

// ---- the map's own functions ---------------------------------------------

/// `http::HeaderName::from_bytes`: the name that a text reads as, which is the
/// text with its ASCII capitals made small. A text is a name where it is not
/// empty, has at most 65535 bytes, and holds only the characters of a token.
#[verifier::external_body]
fn header_name(name: &str) -> (r: Option<String>)
    ensures
        match r {
            Some(n) => valid_name(name@) && n@ == text::lower(name@),
            None => !valid_name(name@),
        },
{
    http::HeaderName::from_bytes(name.as_bytes()).ok().map(|n| n.as_str().to_string())
}

/// `http::HeaderValue::from_str`: that it reads a text, which it does where each
/// of the text's bytes may stand in a header's value.
#[verifier::external_body]
fn is_header_value(value: &str) -> (r: bool)
    ensures
        r == valid_value(value@),
{
    http::HeaderValue::from_str(value).is_ok()
}

/// `http::HeaderMap::new`: a map that holds nothing.
#[verifier::external_body]
pub(crate) fn empty() -> (r: http::HeaderMap<http::HeaderValue>)
    ensures
        held(r) == no_headers(),
{
    http::HeaderMap::new()
}

/// `http::HeaderMap::clone`: a map that holds the same.
#[verifier::external_body]
fn copy(map: &http::HeaderMap<http::HeaderValue>) -> (r: http::HeaderMap<http::HeaderValue>)
    ensures
        held(r) == held(*map),
{
    map.clone()
}

/// `http::HeaderMap::contains_key`: whether the map holds a name.
#[verifier::external_body]
fn contains(map: &http::HeaderMap<http::HeaderValue>, name: &str) -> (r: bool)
    requires
        kept_name(name@),
    ensures
        r == held(*map).contains_key(name@),
{
    map.contains_key(name)
}

/// `http::HeaderMap::keys`: the names that the map holds, each once. In which
/// order they come is not stated.
#[verifier::external_body]
fn names(map: &http::HeaderMap<http::HeaderValue>) -> (r: Vec<String>)
    ensures
        names_once(text::texts(r@), held(*map)),
{
    map.keys().map(|name| name.as_str().to_string()).collect()
}

/// `http::HeaderMap::keys_len`: how many names the map holds.
#[verifier::external_body]
fn count(map: &http::HeaderMap<http::HeaderValue>) -> (r: usize)
    ensures
        has_names(held(*map), r as nat),
{
    map.keys_len()
}

/// `http::HeaderMap::insert`: gives a name one value, in place of those it has.
/// The map panics where it would have to grow past its limit, which it does not
/// while it holds no more than 6553 names.
#[verifier::external_body]
fn put(map: &mut http::HeaderMap<http::HeaderValue>, name: &str, value: &str)
    requires
        kept_name(name@),
        valid_value(value@),
        room(held(*old(map)), 1),
    ensures
        held(*final(map)) == held(*old(map)).insert(
            name@,
            seq![vstd::utf8::encode_utf8(value@)],
        ),
{
    if let (Ok(name), Ok(value)) = (
        http::HeaderName::from_bytes(name.as_bytes()),
        http::HeaderValue::from_str(value),
    ) {
        map.insert(name, value);
    }
}

/// `http::HeaderMap::remove`: takes a name that the map holds out of it, with
/// all its values.
#[verifier::external_body]
fn take_out(map: &mut http::HeaderMap<http::HeaderValue>, name: &str)
    requires
        held(*old(map)).contains_key(name@),
    ensures
        held(*final(map)) == held(*old(map)).remove(name@),
{
    if let Ok(name) = http::HeaderName::from_lowercase(name.as_bytes()) {
        map.remove(name);
    }
}

// ---- headers of this crate -----------------------------------------------

/// Whether a map surely has room for two more names.
pub fn has_room(map: &http::HeaderMap<http::HeaderValue>) -> (r: bool)
    ensures
        r == room(held(*map), 2),
{
    count(map) <= 6552
}

proof fn lemma_kept(name: Seq<char>)
    requires
        0 < name.len() <= 65535,
        forall|i: int|
            0 <= i < name.len() ==> token_char(#[trigger] name[i]) && !('A' <= name[i] <= 'Z'),
    ensures
        kept_name(name),
{
    assert(text::lower(name) =~= name);
}

proof fn lemma_lowered(name: Seq<char>)
    requires
        valid_name(name),
    ensures
        kept_name(text::lower(name)),
{
    let small = text::lower(name);
    assert forall|i: int| 0 <= i < small.len() implies token_char(#[trigger] small[i]) && !('A'
        <= small[i] <= 'Z') by {
        assert(token_char(name[i]));
    }
    lemma_kept(small);
}

/// Whether a request asks for a WebSocket.
pub fn has_websocket_key(map: &http::HeaderMap<http::HeaderValue>) -> (r: bool)
    ensures
        r == held(*map).contains_key("sec-websocket-key"@),
{
    proof {
        reveal_strlit("sec-websocket-key");
        lemma_kept("sec-websocket-key"@);
    }
    contains(map, "sec-websocket-key")
}

/// Gives a header one value, in place of those it has. A name or a value that
/// no header can have is refused.
pub fn insert(map: &mut http::HeaderMap<http::HeaderValue>, name: &str, value: &str) -> (r: bool)
    requires
        room(held(*old(map)), 1),
    ensures
        r == (valid_name(name@) && valid_value(value@)),
        held(*final(map)) == (if r {
            held(*old(map)).insert(text::lower(name@), seq![vstd::utf8::encode_utf8(value@)])
        } else {
            held(*old(map))
        }),
{
    match header_name(name) {
        Some(small) => {
            if !is_header_value(value) {
                return false;
            }
            proof {
                lemma_lowered(name@);
            }
            put(map, small.as_str(), value);
            true
        },
        None => false,
    }
}

/// A header that was given a value has that value and no other, whatever the
/// letters of its name, and the other headers stay.
pub proof fn inserted_header_stands(
    headers: HeadersView,
    name: Seq<char>,
    value: Seq<u8>,
    other: Seq<char>,
)
    ensures
        ({
            let after = headers.insert(text::lower(name), seq![value]);
            &&& after.contains_key(text::lower(name)) && after[text::lower(name)] == seq![value]
            &&& other != text::lower(name) ==> {
                &&& after.contains_key(other) == headers.contains_key(other)
                &&& after[other] == headers[other]
            }
        }),
{
}

// ---- changes of protocol -------------------------------------------------

/// Whether a header is one of a WebSocket's.
pub open spec fn websocket_header(name: Seq<char>) -> bool {
    text::has_prefix(name, "sec-websocket-"@)
}

/// Whether a header goes on with a request for a WebSocket.
pub open spec fn goes_on(name: Seq<char>) -> bool {
    ||| name == "upgrade"@
    ||| name == "connection"@
    ||| name == "sec-websocket-key"@
    ||| websocket_header(name)
}

/// The headers whose names satisfy a condition.
pub open spec fn those(headers: HeadersView, wanted: spec_fn(Seq<char>) -> bool) -> HeadersView {
    headers.restrict(Set::new(wanted))
}

/// Whether a header is kept.
fn is_kept(name: &str, websocket_only: bool) -> (r: bool)
    ensures
        r == (if websocket_only {
            websocket_header(name@)
        } else {
            goes_on(name@)
        }),
{
    text::starts_with(name, "sec-websocket-") || (!websocket_only && (text::same(name, "upgrade")
        || text::same(name, "connection") || text::same(name, "sec-websocket-key")))
}

/// A map without the headers that do not go on.
fn kept(
    map: &http::HeaderMap<http::HeaderValue>,
    websocket_only: bool,
) -> (r: http::HeaderMap<http::HeaderValue>)
    ensures
        held(r) == those(
            held(*map),
            |name: Seq<char>|
                if websocket_only {
                    websocket_header(name)
                } else {
                    goes_on(name)
                },
        ),
{
    let ghost wanted = |name: Seq<char>|
        if websocket_only {
            websocket_header(name)
        } else {
            goes_on(name)
        };
    let all = names(map);
    let ghost every = text::texts(all@);
    let mut r = copy(map);
    let mut i: usize = 0;
    while i < all.len()
        invariant
            i <= all@.len(),
            every == text::texts(all@),
            names_once(every, held(*map)),
            wanted == (|name: Seq<char>|
                if websocket_only {
                    websocket_header(name)
                } else {
                    goes_on(name)
                }),
            forall|name: Seq<char>| #[trigger]
                held(r).contains_key(name) <==> held(*map).contains_key(name) && (wanted(name)
                    || !every.take(i as int).contains(name)),
            forall|name: Seq<char>| #[trigger]
                held(r).contains_key(name) ==> held(r)[name] == held(*map)[name],
        decreases all.len() - i,
    {
        let name = all[i].as_str();
        let ghost before = every.take(i as int);
        proof {
            assert(every[i as int] == name@);
            assert(every.contains(name@));
            assert(held(*map).contains_key(name@));
            assert(!before.contains(name@)) by {
                if before.contains(name@) {
                    let k = choose|k: int| 0 <= k < before.len() && before[k] == name@;
                    assert(every[k] == name@);
                }
            }
            assert(every.take(i + 1) =~= before.push(name@));
            assert forall|n: Seq<char>| #[trigger]
                every.take(i + 1).contains(n) <==> before.contains(n) || n == name@ by {
                if before.contains(n) {
                    let k = choose|k: int| 0 <= k < before.len() && before[k] == n;
                    assert(every.take(i + 1)[k] == n);
                }
                if n == name@ {
                    assert(every.take(i + 1)[i as int] == n);
                }
            }
        }
        if !is_kept(name, websocket_only) {
            take_out(&mut r, name);
        }
        i = i + 1;
    }
    proof {
        assert(every.take(i as int) =~= every);
        assert(held(r) =~= those(held(*map), wanted));
    }
    r
}

/// The headers that go on with a request for a WebSocket.
pub fn upgrade_request_headers(
    map: &http::HeaderMap<http::HeaderValue>,
) -> (r: http::HeaderMap<http::HeaderValue>)
    ensures
        held(r) == those(held(*map), |name: Seq<char>| goes_on(name)),
{
    let r = kept(map, false);
    assert(held(r) =~= those(held(*map), |name: Seq<char>| goes_on(name)));
    r
}

proof fn lemma_plain_value(value: Seq<char>)
    requires
        forall|i: int| 0 <= i < value.len() ==> ' ' <= #[trigger] value[i] <= '~',
    ensures
        valid_value(value),
    decreases value.len(),
{
    if value.len() > 0 {
        let rest = value.drop_first();
        lemma_plain_value(rest);
        let first = value[0] as u32;
        assert(32 <= (first & 0x7F) as u8 && (first & 0x7F) as u8 <= 126) by (bit_vector)
            requires
                32 <= first <= 126,
        ;
        let bytes = vstd::utf8::encode_utf8(value);
        assert(bytes == vstd::utf8::encode_scalar(first) + vstd::utf8::encode_utf8(rest));
        assert forall|i: int| 0 <= i < bytes.len() implies value_byte(#[trigger] bytes[i]) by {
            if i > 0 {
                assert(bytes[i] == vstd::utf8::encode_utf8(rest)[i - 1]);
            }
        }
    }
}

/// The headers that a WebSocket's client is answered with: the change of
/// protocol, and the WebSocket's own of the answer that came.
pub fn upgrade_response_headers(
    map: &http::HeaderMap<http::HeaderValue>,
) -> (r: http::HeaderMap<http::HeaderValue>)
    requires
        room(held(*map), 2),
    ensures
        held(r) == those(held(*map), |name: Seq<char>| websocket_header(name)).insert(
            "upgrade"@,
            seq![vstd::utf8::encode_utf8("websocket"@)],
        ).insert("connection"@, seq![vstd::utf8::encode_utf8("upgrade"@)]),
{
    let mut r = kept(map, true);
    proof {
        assert(held(r) =~= those(held(*map), |name: Seq<char>| websocket_header(name)));
        vstd::set_lib::lemma_len_subset(held(r).dom(), held(*map).dom());
        reveal_strlit("upgrade");
        reveal_strlit("connection");
        reveal_strlit("websocket");
        lemma_kept("upgrade"@);
        lemma_kept("connection"@);
        lemma_plain_value("websocket"@);
        lemma_plain_value("upgrade"@);
    }
    put(&mut r, "upgrade", "websocket");
    put(&mut r, "connection", "upgrade");
    r
}

/// A request that asks for a WebSocket still asks for it when it goes on, and
/// nothing but the headers of the change goes on with it.
pub proof fn upgrades_still_ask(headers: HeadersView, name: Seq<char>)
    ensures
        ({
            let on = those(headers, |n: Seq<char>| goes_on(n));
            &&& on.contains_key(name) <==> headers.contains_key(name) && goes_on(name)
            &&& on.contains_key(name) ==> on[name] == headers[name]
            &&& on.contains_key("sec-websocket-key"@) == headers.contains_key(
                "sec-websocket-key"@,
            )
        }),
{
}

/// A header's name holds visible ASCII but for the characters that part things
/// in a header; its value holds no control character but the tab.
pub proof fn names_and_values_are_plain(c: char, b: u8)
    ensures
        token_char(c) <==> '!' <= c <= '~' && c != '(' && c != ')' && c != ',' && c != '/' && c
            != ':' && c != ';' && c != '<' && c != '=' && c != '>' && c != '?' && c != '@' && c
            != '[' && c != '\\' && c != ']' && c != '{' && c != '}' && c != '"',
        !value_byte(b) <==> (b < 32 && b != 9) || b == 127,
{
}

/// With a request for a WebSocket go the headers of the change of protocol and
/// all that are the WebSocket's own, and no other; with its answer go the
/// WebSocket's own alone.
pub proof fn websocket_headers_go_on(name: Seq<char>, rest: Seq<char>)
    ensures
        goes_on("upgrade"@),
        goes_on("connection"@),
        goes_on("sec-websocket-"@ + rest),
        websocket_header("sec-websocket-"@ + rest),
        goes_on(name) && name != "upgrade"@ && name != "connection"@ ==> websocket_header(name),
        websocket_header(name) ==> name.len() >= 14 && name[3] == '-' && name[13] == '-',
        !websocket_header("upgrade"@),
        !websocket_header("connection"@),
{
    reveal_strlit("sec-websocket-");
    reveal_strlit("sec-websocket-key");
    reveal_strlit("upgrade");
    reveal_strlit("connection");
    let own = "sec-websocket-"@ + rest;
    assert(own.subrange(0, 14) =~= "sec-websocket-"@);
    assert("sec-websocket-key"@.subrange(0, 14) =~= "sec-websocket-"@);
    if websocket_header(name) {
        let head = name.subrange(0, 14);
        assert(head[3] == '-' && head[13] == '-');
    }
}

} // verus!
