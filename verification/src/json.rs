//! JSON documents that the connector writes.

use vstd::prelude::*;
use vstd::string::*;

use crate::hexadecimal::hex_digit;
use crate::model::{pair_views, views};
use crate::outside::{json_escape, json_escaped, json_quote, json_quoted};
use crate::text::{decimal, digit, joined, same_text, to_decimal};

verus! {

/// A JSON document. The members of an object stand in the order in which they are written.
#[derive(Debug, PartialEq, Eq)]
pub enum Json {
    Null,
    Number(u64),
    Text(String),
    Array(Vec<Json>),
    Object(Vec<(String, Json)>),
}

/// What a JSON document says.
pub enum JsonView {
    Null,
    Number(nat),
    Text(Seq<char>),
    Array(Seq<JsonView>),
    Object(Seq<(Seq<char>, JsonView)>),
}

/// What a JSON document says.
pub open spec fn json_view(json: Json) -> JsonView
    decreases json,
{
    match json {
        Json::Null => JsonView::Null,
        Json::Number(n) => JsonView::Number(n as nat),
        Json::Text(text) => JsonView::Text(text@),
        Json::Array(items) => JsonView::Array(
            Seq::new(
                items@.len(),
                |i: int|
                    if 0 <= i < items@.len() {
                        json_view(items@[i])
                    } else {
                        JsonView::Null
                    },
            ),
        ),
        Json::Object(members) => JsonView::Object(
            Seq::new(
                members@.len(),
                |i: int|
                    if 0 <= i < members@.len() {
                        (members@[i].0@, json_view(members@[i].1))
                    } else {
                        (Seq::empty(), JsonView::Null)
                    },
            ),
        ),
    }
}

impl View for Json {
    type V = JsonView;

    open spec fn view(&self) -> JsonView {
        json_view(*self)
    }
}

/// A document in compact form.
pub open spec fn json_text(json: JsonView) -> Seq<char>
    decreases json,
{
    match json {
        JsonView::Null => "null"@,
        JsonView::Number(n) => decimal(n),
        JsonView::Text(text) => json_quoted(text),
        JsonView::Array(items) => "["@ + array_text(items) + "]"@,
        JsonView::Object(members) => "{"@ + object_text(members) + "}"@,
    }
}

/// The items of an array in compact form.
pub open spec fn array_text(items: Seq<JsonView>) -> Seq<char>
    decreases items,
{
    if items.len() == 0 {
        Seq::empty()
    } else if items.len() == 1 {
        json_text(items[0])
    } else {
        array_text(items.drop_last()) + ","@ + json_text(items.last())
    }
}

/// One member of an object in compact form.
pub open spec fn member_text(member: (Seq<char>, JsonView)) -> Seq<char>
    decreases member,
{
    json_quoted(member.0) + ":"@ + json_text(member.1)
}

/// The members of an object in compact form.
pub open spec fn object_text(members: Seq<(Seq<char>, JsonView)>) -> Seq<char>
    decreases members,
{
    if members.len() == 0 {
        Seq::empty()
    } else if members.len() == 1 {
        member_text(members[0])
    } else {
        object_text(members.drop_last()) + ","@ + member_text(members.last())
    }
}

/// The first of these members, from `from` on, with this name.
pub open spec fn member_from(
    members: Seq<(Seq<char>, JsonView)>,
    name: Seq<char>,
    from: int,
) -> Option<JsonView>
    decreases members.len() - from,
{
    if from >= members.len() {
        None
    } else if members[from].0 == name {
        Some(members[from].1)
    } else {
        member_from(members, name, from + 1)
    }
}

/// The first member of an object with this name.
pub open spec fn first_member(json: JsonView, name: Seq<char>) -> Option<JsonView> {
    match json {
        JsonView::Object(members) => member_from(members, name, 0),
        _ => None,
    }
}

/// A text as a JSON string.
fn quote(text: &str) -> (quoted: String)
    ensures
        quoted@ == json_quoted(text@),
{
    match json_quote(text) {
        Ok(quoted) => quoted,
        Err(_) => String::new(),
    }
}

/// Adds a member behind those that an object has.
pub fn add_member(members: &mut Vec<(String, Json)>, name: &str, value: Json)
    ensures
        pair_views(final(members)@) == pair_views(old(members)@).push((name@, value@)),
{
    let ghost before = members@;
    members.push((name.to_owned(), value));
    assert(pair_views(members@) =~= pair_views(before).push((name@, value@)));
}

impl Json {
    /// An object with these members.
    pub fn object(members: Vec<(String, Json)>) -> (json: Json)
        ensures
            json@ == JsonView::Object(pair_views(members@)),
    {
        let json = Json::Object(members);
        assert(json@->Object_0 =~= pair_views(members@));
        json
    }

    /// An array of these items.
    pub fn array(items: Vec<Json>) -> (json: Json)
        ensures
            json@ == JsonView::Array(views(items@)),
    {
        let json = Json::Array(items);
        assert(json@->Array_0 =~= views(items@));
        json
    }

    /// The member of an object with this name, where there is one.
    pub fn get(&self, name: &str) -> (member: Option<&Json>)
        ensures
            match member {
                Some(json) => first_member(self@, name@) == Some(json@),
                None => first_member(self@, name@) is None,
            },
    {
        match self {
            Json::Object(members) => {
                let ghost said = self@->Object_0;
                for i in 0..members.len()
                    invariant
                        *self == Json::Object(*members),
                        self@ == JsonView::Object(said),
                        member_from(said, name@, 0) == member_from(said, name@, i as int),
                {
                    assert(said[i as int] == (members@[i as int].0@, members@[i as int].1@));
                    if same_text(members[i].0.as_str(), name) {
                        return Some(&members[i].1);
                    }
                }
                None
            },
            _ => None,
        }
    }

    /// The item of an array at this position, where there is one.
    pub fn at(&self, index: usize) -> (item: Option<&Json>)
        ensures
            match (item, self@) {
                (Some(json), JsonView::Array(items)) => index < items.len() && json@
                    == items[index as int],
                (Some(_), _) => false,
                (None, JsonView::Array(items)) => index >= items.len(),
                (None, _) => true,
            },
    {
        match self {
            Json::Array(items) => if index < items.len() {
                Some(&items[index])
            } else {
                None
            },
            _ => None,
        }
    }

    /// A JSON string.
    pub fn text(text: &str) -> (json: Json)
        ensures
            json@ == JsonView::Text(text@),
    {
        Json::Text(text.to_owned())
    }

    /// The document in compact form.
    pub fn to_text(&self) -> (out: String)
        ensures
            out@ == json_text(self@),
        decreases self,
    {
        match self {
            Json::Null => "null".to_owned(),
            Json::Number(n) => to_decimal(*n),
            Json::Text(text) => quote(text.as_str()),
            Json::Array(items) => {
                let ghost said = self@->Array_0;
                let mut body = String::new();
                for i in 0..items.len()
                    invariant
                        *self == Json::Array(*items),
                        self@ == JsonView::Array(said),
                        body@ == array_text(said.take(i as int)),
                {
                    proof {
                        assert(said.take(i + 1).drop_last() =~= said.take(i as int));
                        assert(said[i as int] == items@[i as int]@);
                    }
                    if i > 0 {
                        body.append(",");
                    }
                    assert(decreases_to!(items => items[i as int]));
                    body.append(items[i].to_text().as_str());
                    assert(body@ =~= array_text(said.take(i + 1)));
                }
                assert(said.take(items@.len() as int) =~= said);
                "[".to_owned().concat(body.as_str()).concat("]")
            },
            Json::Object(members) => {
                let ghost said = self@->Object_0;
                let mut body = String::new();
                for i in 0..members.len()
                    invariant
                        *self == Json::Object(*members),
                        self@ == JsonView::Object(said),
                        body@ == object_text(said.take(i as int)),
                {
                    proof {
                        assert(said.take(i + 1).drop_last() =~= said.take(i as int));
                        assert(said[i as int] == (members@[i as int].0@, members@[i as int].1@));
                    }
                    if i > 0 {
                        body.append(",");
                    }
                    assert(decreases_to!(members => members[i as int]));
                    let member = quote(members[i].0.as_str()).concat(":").concat(
                        members[i].1.to_text().as_str(),
                    );
                    assert(member@ == member_text(said[i as int]));
                    body.append(member.as_str());
                    assert(body@ =~= object_text(said.take(i + 1)));
                }
                assert(said.take(members@.len() as int) =~= said);
                "{".to_owned().concat(body.as_str()).concat("}")
            },
        }
    }
}

// ---------------------------------------------------------------------------
// Laws
// ---------------------------------------------------------------------------
/// A decimal digit.
spec fn is_digit(c: char) -> bool {
    '0' <= c <= '9'
}

/// Text that cannot continue a number.
spec fn ends_number(text: Seq<char>) -> bool {
    text.len() == 0 || !is_digit(text[0])
}

/// A number is written in digits.
proof fn lemma_decimal_digits(n: nat)
    ensures
        decimal(n).len() > 0,
        forall|i: int| 0 <= i < decimal(n).len() ==> is_digit(#[trigger] decimal(n)[i]),
    decreases n,
{
    if n >= 10 {
        lemma_decimal_digits(n / 10);
    }
}

/// Different numbers are written differently.
proof fn lemma_decimal_injective(n: nat, m: nat)
    requires
        decimal(n) == decimal(m),
    ensures
        n == m,
    decreases n,
{
    lemma_decimal_digits(n / 10);
    lemma_decimal_digits(m / 10);
    assert(decimal(n).last() == digit(n % 10));
    assert(decimal(m).last() == digit(m % 10));
    if n >= 10 && m >= 10 {
        assert(decimal(n).drop_last() =~= decimal(n / 10));
        assert(decimal(m).drop_last() =~= decimal(m / 10));
        lemma_decimal_injective(n / 10, m / 10);
    } else if n >= 10 {
        assert(decimal(n).len() == decimal(n / 10).len() + 1);
        assert(decimal(m).len() == 1);
    } else if m >= 10 {
        assert(decimal(m).len() == decimal(m / 10).len() + 1);
        assert(decimal(n).len() == 1);
    }
}

/// A number and what follows it can be told apart.
proof fn lemma_number_unique(n: nat, m: nat, s: Seq<char>, t: Seq<char>)
    requires
        decimal(n) + s == decimal(m) + t,
        ends_number(s),
        ends_number(t),
    ensures
        n == m,
        s == t,
{
    lemma_decimal_digits(n);
    lemma_decimal_digits(m);
    let x = decimal(n);
    let y = decimal(m);
    let whole = x + s;
    if x.len() < y.len() {
        assert((y + t)[x.len() as int] == y[x.len() as int]);
        assert(whole.len() > x.len());
        assert(whole[x.len() as int] == s[0]);
    } else if y.len() < x.len() {
        assert(whole[y.len() as int] == x[y.len() as int]);
        assert((y + t).len() > y.len());
        assert((y + t)[y.len() as int] == t[0]);
    }
    assert(whole.take(x.len() as int) =~= x);
    assert((y + t).take(y.len() as int) =~= y);
    assert(whole.skip(x.len() as int) =~= s);
    assert((y + t).skip(y.len() as int) =~= t);
    lemma_decimal_injective(n, m);
}

/// The escaped form of a text starts with the escaped form of its first character.
proof fn lemma_escaped_front(text: Seq<char>)
    requires
        text.len() > 0,
    ensures
        json_escaped(text) == json_escape(text[0]) + json_escaped(text.drop_first()),
    decreases text.len(),
{
    if text.len() == 1 {
        assert(text.drop_last() =~= Seq::<char>::empty());
        assert(text.drop_first() =~= Seq::<char>::empty());
        assert(json_escaped(text) =~= json_escape(text[0]) + json_escaped(text.drop_first()));
    } else {
        let front = text.drop_last();
        let rest = text.drop_first();
        lemma_escaped_front(front);
        assert(rest.drop_last() =~= front.drop_first());
        assert(rest.last() == text.last());
        assert(json_escaped(text) =~= json_escape(text[0]) + json_escaped(rest));
    }
}

/// Different hexadecimal digits are written differently.
proof fn lemma_hex_digit_injective(a: nat, b: nat)
    requires
        a < 16,
        b < 16,
        hex_digit(a) == hex_digit(b),
    ensures
        a == b,
{
}

/// One escaped character and what follows it can be told apart.
proof fn lemma_escape_unique(c: char, d: char, s: Seq<char>, t: Seq<char>)
    requires
        json_escape(c) + s == json_escape(d) + t,
    ensures
        c == d,
        s == t,
{
    let x = json_escape(c);
    let y = json_escape(d);
    let whole = x + s;
    assert(whole[0] == x[0]);
    assert(whole[0] == (y + t)[0]);
    assert((y + t)[0] == y[0]);
    if x[0] == '\\' {
        assert(x.len() > 1 && y.len() > 1);
        assert(whole[1] == x[1]);
        assert((y + t)[1] == y[1]);
        if x[1] == 'u' {
            assert(x.len() == 6 && y.len() == 6);
            assert(whole[4] == x[4] && whole[5] == x[5]);
            assert((y + t)[4] == y[4] && (y + t)[5] == y[5]);
            lemma_hex_digit_injective(c as nat / 16, d as nat / 16);
            lemma_hex_digit_injective(c as nat % 16, d as nat % 16);
            assert(c as nat == d as nat);
        }
    }
    assert(c == d);
    assert(whole.skip(x.len() as int) =~= s);
    assert((y + t).skip(y.len() as int) =~= t);
}

/// An escaped character does not start with the quote that ends a string.
proof fn lemma_escape_is_no_quote(c: char)
    ensures
        json_escape(c).len() > 0,
        json_escape(c)[0] != '"',
{
}

/// A string's content and what follows its closing quote can be told apart.
proof fn lemma_escaped_unique(x: Seq<char>, y: Seq<char>, s: Seq<char>, t: Seq<char>)
    requires
        json_escaped(x) + seq!['"'] + s == json_escaped(y) + seq!['"'] + t,
    ensures
        x == y,
        s == t,
    decreases x.len(),
{
    let a = json_escaped(x) + seq!['"'] + s;
    let b = json_escaped(y) + seq!['"'] + t;
    if x.len() == 0 && y.len() == 0 {
        assert(x =~= y);
        assert(a.skip(1) =~= s);
        assert(b.skip(1) =~= t);
    } else if x.len() == 0 {
        lemma_escaped_front(y);
        lemma_escape_is_no_quote(y[0]);
        assert(a[0] == '"');
        assert(b[0] == json_escape(y[0])[0]);
    } else if y.len() == 0 {
        lemma_escaped_front(x);
        lemma_escape_is_no_quote(x[0]);
        assert(b[0] == '"');
        assert(a[0] == json_escape(x[0])[0]);
    } else {
        lemma_escaped_front(x);
        lemma_escaped_front(y);
        let u = json_escaped(x.drop_first()) + seq!['"'] + s;
        let v = json_escaped(y.drop_first()) + seq!['"'] + t;
        assert(a =~= json_escape(x[0]) + u);
        assert(b =~= json_escape(y[0]) + v);
        lemma_escape_unique(x[0], y[0], u, v);
        lemma_escaped_unique(x.drop_first(), y.drop_first(), s, t);
        assert(x =~= seq![x[0]] + x.drop_first());
        assert(y =~= seq![y[0]] + y.drop_first());
    }
}

/// A string and what follows it can be told apart.
proof fn lemma_quoted_unique(x: Seq<char>, y: Seq<char>, s: Seq<char>, t: Seq<char>)
    requires
        json_quoted(x) + s == json_quoted(y) + t,
    ensures
        x == y,
        s == t,
{
    let a = json_quoted(x) + s;
    let b = json_quoted(y) + t;
    assert(a.skip(1) =~= json_escaped(x) + seq!['"'] + s);
    assert(b.skip(1) =~= json_escaped(y) + seq!['"'] + t);
    lemma_escaped_unique(x, y, s, t);
}

/// The character that a document's text starts with tells what the document is.
spec fn starts_document(json: JsonView, c: char) -> bool {
    match json {
        JsonView::Null => c == 'n',
        JsonView::Number(_) => is_digit(c),
        JsonView::Text(_) => c == '"',
        JsonView::Array(_) => c == '[',
        JsonView::Object(_) => c == '{',
    }
}

/// A document's text starts with the character that tells what it is.
proof fn lemma_document_start(json: JsonView)
    ensures
        json_text(json).len() > 0,
        starts_document(json, json_text(json)[0]),
{
    reveal_strlit("null");
    reveal_strlit("[");
    reveal_strlit("{");
    match json {
        JsonView::Number(n) => {
            lemma_decimal_digits(n);
        },
        _ => {},
    }
}

/// What stands behind the first item of an array.
spec fn array_rest(items: Seq<JsonView>) -> Seq<char> {
    if items.len() <= 1 {
        Seq::empty()
    } else {
        ","@ + array_text(items.drop_first())
    }
}

/// An array's text starts with its first item's.
proof fn lemma_array_front(items: Seq<JsonView>)
    requires
        items.len() > 0,
    ensures
        array_text(items) == json_text(items[0]) + array_rest(items),
    decreases items.len(),
{
    if items.len() == 1 {
        assert(json_text(items[0]) + array_rest(items) =~= json_text(items[0]));
    } else {
        let front = items.drop_last();
        lemma_array_front(front);
        let rest = items.drop_first();
        assert(front[0] == items[0]);
        assert(rest.last() == items.last());
        if items.len() == 2 {
            assert(rest[0] == items.last());
            assert(array_text(items) =~= json_text(items[0]) + array_rest(items));
        } else {
            assert(rest.drop_last() =~= front.drop_first());
            assert(array_text(items) =~= json_text(items[0]) + array_rest(items));
        }
    }
}

/// What stands behind the first member of an object.
spec fn object_rest(members: Seq<(Seq<char>, JsonView)>) -> Seq<char> {
    if members.len() <= 1 {
        Seq::empty()
    } else {
        ","@ + object_text(members.drop_first())
    }
}

/// An object's text starts with its first member's.
proof fn lemma_object_front(members: Seq<(Seq<char>, JsonView)>)
    requires
        members.len() > 0,
    ensures
        object_text(members) == member_text(members[0]) + object_rest(members),
    decreases members.len(),
{
    if members.len() == 1 {
        assert(member_text(members[0]) + object_rest(members) =~= member_text(members[0]));
    } else {
        let front = members.drop_last();
        lemma_object_front(front);
        let rest = members.drop_first();
        assert(front[0] == members[0]);
        assert(rest.last() == members.last());
        if members.len() == 2 {
            assert(rest[0] == members.last());
            assert(object_text(members) =~= member_text(members[0]) + object_rest(members));
        } else {
            assert(rest.drop_last() =~= front.drop_first());
            assert(object_text(members) =~= member_text(members[0]) + object_rest(members));
        }
    }
}

/// A document and what follows it can be told apart.
proof fn lemma_document_unique(a: JsonView, b: JsonView, s: Seq<char>, t: Seq<char>)
    requires
        json_text(a) + s == json_text(b) + t,
        ends_number(s),
        ends_number(t),
    ensures
        a == b,
        s == t,
    decreases a,
{
    reveal_strlit("null");
    reveal_strlit("[");
    reveal_strlit("]");
    reveal_strlit("{");
    reveal_strlit("}");
    let x = json_text(a) + s;
    let y = json_text(b) + t;
    lemma_document_start(a);
    lemma_document_start(b);
    assert(x[0] == json_text(a)[0]);
    assert(y[0] == json_text(b)[0]);
    match (a, b) {
        (JsonView::Null, JsonView::Null) => {
            assert(x.skip(4) =~= s);
            assert(y.skip(4) =~= t);
        },
        (JsonView::Number(n), JsonView::Number(m)) => {
            lemma_number_unique(n, m, s, t);
        },
        (JsonView::Text(u), JsonView::Text(v)) => {
            lemma_quoted_unique(u, v, s, t);
        },
        (JsonView::Array(items), JsonView::Array(others)) => {
            assert(x.skip(1) =~= array_text(items) + (seq![']'] + s));
            assert(y.skip(1) =~= array_text(others) + (seq![']'] + t));
            lemma_array_unique(items, others, s, t);
        },
        (JsonView::Object(members), JsonView::Object(others)) => {
            assert(x.skip(1) =~= object_text(members) + (seq!['}'] + s));
            assert(y.skip(1) =~= object_text(others) + (seq!['}'] + t));
            lemma_object_unique(members, others, s, t);
        },
        _ => {},
    }
}

/// An array's items and what follows its closing bracket can be told apart.
proof fn lemma_array_unique(
    items: Seq<JsonView>,
    others: Seq<JsonView>,
    s: Seq<char>,
    t: Seq<char>,
)
    requires
        array_text(items) + (seq![']'] + s) == array_text(others) + (seq![']'] + t),
    ensures
        items == others,
        s == t,
    decreases items,
{
    reveal_strlit(",");
    let x = array_text(items) + (seq![']'] + s);
    let y = array_text(others) + (seq![']'] + t);
    if items.len() == 0 && others.len() == 0 {
        assert(items =~= others);
        assert(x.skip(1) =~= s);
        assert(y.skip(1) =~= t);
    } else if items.len() == 0 {
        lemma_array_front(others);
        lemma_document_start(others[0]);
        assert(x[0] == ']');
        assert(y[0] == json_text(others[0])[0]);
    } else if others.len() == 0 {
        lemma_array_front(items);
        lemma_document_start(items[0]);
        assert(y[0] == ']');
        assert(x[0] == json_text(items[0])[0]);
    } else {
        lemma_array_front(items);
        lemma_array_front(others);
        let u = array_rest(items) + (seq![']'] + s);
        let v = array_rest(others) + (seq![']'] + t);
        assert(x =~= json_text(items[0]) + u);
        assert(y =~= json_text(others[0]) + v);
        assert(u[0] == if items.len() == 1 {
            ']'
        } else {
            ','
        });
        assert(v[0] == if others.len() == 1 {
            ']'
        } else {
            ','
        });
        assert(decreases_to!(items => items[0]));
        lemma_document_unique(items[0], others[0], u, v);
        if items.len() == 1 {
            assert(u.skip(1) =~= s);
            assert(v.skip(1) =~= t);
            assert(items =~= others);
        } else {
            let rest = items.drop_first();
            let behind = others.drop_first();
            assert(u.skip(1) =~= array_text(rest) + (seq![']'] + s));
            assert(v.skip(1) =~= array_text(behind) + (seq![']'] + t));
            assert(decreases_to!(items => items.subrange(1, items.len() as int)));
            lemma_array_unique(rest, behind, s, t);
            assert(items =~= seq![items[0]] + rest);
            assert(others =~= seq![others[0]] + behind);
        }
    }
}

/// An object's members and what follows its closing brace can be told apart.
proof fn lemma_object_unique(
    members: Seq<(Seq<char>, JsonView)>,
    others: Seq<(Seq<char>, JsonView)>,
    s: Seq<char>,
    t: Seq<char>,
)
    requires
        object_text(members) + (seq!['}'] + s) == object_text(others) + (seq!['}'] + t),
    ensures
        members == others,
        s == t,
    decreases members,
{
    reveal_strlit(",");
    reveal_strlit(":");
    let x = object_text(members) + (seq!['}'] + s);
    let y = object_text(others) + (seq!['}'] + t);
    if members.len() == 0 && others.len() == 0 {
        assert(members =~= others);
        assert(x.skip(1) =~= s);
        assert(y.skip(1) =~= t);
    } else if members.len() == 0 {
        lemma_object_front(others);
        assert(x[0] == '}');
        assert(member_text(others[0])[0] == '"');
        assert(y[0] == member_text(others[0])[0]);
    } else if others.len() == 0 {
        lemma_object_front(members);
        assert(y[0] == '}');
        assert(member_text(members[0])[0] == '"');
        assert(x[0] == member_text(members[0])[0]);
    } else {
        lemma_object_front(members);
        lemma_object_front(others);
        let u = object_rest(members) + (seq!['}'] + s);
        let v = object_rest(others) + (seq!['}'] + t);
        let p = ":"@ + json_text(members[0].1) + u;
        let q = ":"@ + json_text(others[0].1) + v;
        assert(member_text(members[0]) == json_quoted(members[0].0) + ":"@ + json_text(
            members[0].1,
        ));
        assert(member_text(others[0]) == json_quoted(others[0].0) + ":"@ + json_text(others[0].1));
        assert(x =~= json_quoted(members[0].0) + p);
        assert(y =~= json_quoted(others[0].0) + q);
        lemma_quoted_unique(members[0].0, others[0].0, p, q);
        assert(p.skip(1) =~= json_text(members[0].1) + u);
        assert(q.skip(1) =~= json_text(others[0].1) + v);
        assert(u[0] == if members.len() == 1 {
            '}'
        } else {
            ','
        });
        assert(v[0] == if others.len() == 1 {
            '}'
        } else {
            ','
        });
        assert(decreases_to!(members => members[0]));
        assert(decreases_to!(members[0] => members[0].1));
        lemma_document_unique(members[0].1, others[0].1, u, v);
        if members.len() == 1 {
            assert(u.skip(1) =~= s);
            assert(v.skip(1) =~= t);
            assert(members =~= others);
        } else {
            let rest = members.drop_first();
            let behind = others.drop_first();
            assert(u.skip(1) =~= object_text(rest) + (seq!['}'] + s));
            assert(v.skip(1) =~= object_text(behind) + (seq!['}'] + t));
            assert(decreases_to!(members => members.subrange(1, members.len() as int)));
            lemma_object_unique(rest, behind, s, t);
            assert(members =~= seq![members[0]] + rest);
            assert(others =~= seq![others[0]] + behind);
        }
    }
}

/// A document is determined by its text.
pub proof fn texts_determine_documents(a: JsonView, b: JsonView)
    requires
        json_text(a) == json_text(b),
    ensures
        a == b,
{
    let end = Seq::<char>::empty();
    assert(json_text(a) + end =~= json_text(a));
    assert(json_text(b) + end =~= json_text(b));
    lemma_document_unique(a, b, end, end);
}

/// The items of an array stand side by side, with commas between them.
proof fn lemma_array_joined(items: Seq<JsonView>)
    ensures
        array_text(items) == joined(
            items.map_values(|item: JsonView| json_text(item)),
            seq![','],
        ),
    decreases items.len(),
{
    reveal_strlit(",");
    assert(","@ =~= seq![',']);
    let texts = items.map_values(|item: JsonView| json_text(item));
    if items.len() > 1 {
        lemma_array_joined(items.drop_last());
        assert(texts.drop_last() =~= items.drop_last().map_values(
            |item: JsonView| json_text(item),
        ));
    }
}

/// The members of an object stand side by side, with commas between them.
proof fn lemma_object_joined(members: Seq<(Seq<char>, JsonView)>)
    ensures
        object_text(members) == joined(
            members.map_values(
                |member: (Seq<char>, JsonView)|
                    json_quoted(member.0) + seq![':'] + json_text(member.1),
            ),
            seq![','],
        ),
    decreases members.len(),
{
    reveal_strlit(",");
    reveal_strlit(":");
    assert(","@ =~= seq![',']);
    assert(":"@ =~= seq![':']);
    let texts = members.map_values(
        |member: (Seq<char>, JsonView)| json_quoted(member.0) + seq![':'] + json_text(member.1),
    );
    if members.len() > 0 {
        let last = members.last();
        assert(member_text(last) =~= json_quoted(last.0) + seq![':'] + json_text(last.1));
        assert(texts.last() == member_text(last));
    }
    if members.len() > 1 {
        lemma_object_joined(members.drop_last());
        assert(texts.drop_last() =~= members.drop_last().map_values(
            |member: (Seq<char>, JsonView)|
                json_quoted(member.0) + seq![':'] + json_text(member.1),
        ));
    }
}

/// A document's compact form is JSON without any white space: items and members stand in their
/// order, with commas between them.
pub proof fn documents_are_written_compactly(
    items: Seq<JsonView>,
    members: Seq<(Seq<char>, JsonView)>,
    text: Seq<char>,
    n: nat,
)
    ensures
        json_text(JsonView::Null) =~= seq!['n', 'u', 'l', 'l'],
        json_text(JsonView::Number(n)) == decimal(n),
        json_text(JsonView::Text(text)) == json_quoted(text),
        json_text(JsonView::Array(items)) =~= seq!['['] + joined(
            items.map_values(|item: JsonView| json_text(item)),
            seq![','],
        ) + seq![']'],
        json_text(JsonView::Object(members)) =~= seq!['{'] + joined(
            members.map_values(
                |member: (Seq<char>, JsonView)|
                    json_quoted(member.0) + seq![':'] + json_text(member.1),
            ),
            seq![','],
        ) + seq!['}'],
{
    reveal_strlit("null");
    reveal_strlit("[");
    reveal_strlit("]");
    reveal_strlit("{");
    reveal_strlit("}");
    lemma_array_joined(items);
    lemma_object_joined(members);
}

/// A member is found by its name: the first of those with that name, and none where no member has
/// it or the document is no object.
pub proof fn members_are_found_by_name(
    members: Seq<(Seq<char>, JsonView)>,
    name: Seq<char>,
    from: int,
    at: int,
)
    requires
        0 <= from <= at <= members.len(),
        forall|i: int| from <= i < at ==> (#[trigger] members[i]).0 != name,
        at < members.len() ==> members[at].0 == name,
    ensures
        member_from(members, name, from) == if at < members.len() {
            Some(members[at].1)
        } else {
            None
        },
        from == 0 ==> first_member(JsonView::Object(members), name) == member_from(
            members,
            name,
            from,
        ),
    decreases at - from,
{
    if from < at {
        assert(members[from].0 != name);
        members_are_found_by_name(members, name, from + 1, at);
    }
}

} // verus!
