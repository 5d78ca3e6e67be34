//! Values of requests, and their text.
use vstd::prelude::*;

use crate::text::{decimal, decimal_text, joined, owned, same, texts};

verus! {

/// A number of a request.
pub enum JsonNumber {
    /// An integer that is not negative.
    Unsigned(u64),
    /// A negative integer.
    Negative(i64),
    /// Any other number, by its text.
    Other(String),
}

/// A value of a request.
pub enum Json {
    Null,
    Bool(bool),
    Number(JsonNumber),
    Text(String),
    List(Vec<Json>),
    Object(Vec<Member>),
}

/// A member of an object.
pub struct Member {
    pub key: String,
    pub value: Json,
}

/// The value of the first member from `from` on with a key.
pub open spec fn member_value(members: Seq<Member>, key: Seq<char>, from: int) -> Option<Json>
    decreases members.len() - from,
{
    if from < 0 || from >= members.len() {
        None
    } else if members[from].key@ == key {
        Some(members[from].value)
    } else {
        member_value(members, key, from + 1)
    }
}

impl Json {
    /// The value of a member, where this is an object that has it.
    pub open spec fn field(self, key: Seq<char>) -> Option<Json> {
        match self {
            Json::Object(members) => member_value(members@, key, 0),
            _ => None,
        }
    }

    /// The text, where this is one.
    pub open spec fn text(self) -> Option<Seq<char>> {
        match self {
            Json::Text(s) => Some(s@),
            _ => None,
        }
    }

    /// The flag, where this is one.
    pub open spec fn flag(self) -> Option<bool> {
        match self {
            Json::Bool(b) => Some(b),
            _ => None,
        }
    }

    /// The integer, where this is one that is not negative.
    pub open spec fn unsigned(self) -> Option<u64> {
        match self {
            Json::Number(JsonNumber::Unsigned(n)) => Some(n),
            _ => None,
        }
    }

    /// The items, where this is a list.
    pub open spec fn items(self) -> Option<Seq<Json>> {
        match self {
            Json::List(v) => Some(v@),
            _ => None,
        }
    }

    /// The text of a member.
    pub open spec fn text_field(self, key: Seq<char>) -> Option<Seq<char>> {
        match self.field(key) {
            Some(v) => v.text(),
            None => None,
        }
    }

    /// The flag of a member.
    pub open spec fn flag_field(self, key: Seq<char>) -> Option<bool> {
        match self.field(key) {
            Some(v) => v.flag(),
            None => None,
        }
    }

    /// The integer of a member, where it is not negative.
    pub open spec fn unsigned_field(self, key: Seq<char>) -> Option<u64> {
        match self.field(key) {
            Some(v) => v.unsigned(),
            None => None,
        }
    }

    /// The items of a member that is a list.
    pub open spec fn items_field(self, key: Seq<char>) -> Option<Seq<Json>> {
        match self.field(key) {
            Some(v) => v.items(),
            None => None,
        }
    }

    /// The value of a member.
    pub fn get(&self, key: &str) -> (r: Option<&Json>)
        ensures
            match r {
                Some(v) => self.field(key@) == Some(*v),
                None => self.field(key@) is None,
            },
    {
        match self {
            Json::Object(members) => {
                let mut i: usize = 0;
                while i < members.len()
                    invariant
                        i <= members.len(),
                        self.field(key@) == member_value(members@, key@, 0),
                        member_value(members@, key@, 0) == member_value(
                            members@,
                            key@,
                            i as int,
                        ),
                    decreases members.len() - i,
                {
                    if same(members[i].key.as_str(), key) {
                        return Some(&members[i].value);
                    }
                    i = i + 1;
                }
                None
            },
            _ => None,
        }
    }

    /// The text, where this is one.
    pub fn as_text(&self) -> (r: Option<&str>)
        ensures
            match r {
                Some(s) => self.text() == Some(s@),
                None => self.text() is None,
            },
    {
        match self {
            Json::Text(s) => Some(s.as_str()),
            _ => None,
        }
    }

    /// The integer, where this is one that is not negative.
    pub fn as_unsigned(&self) -> (r: Option<u64>)
        ensures
            r == self.unsigned(),
    {
        match self {
            Json::Number(JsonNumber::Unsigned(n)) => Some(*n),
            _ => None,
        }
    }

    /// The flag, where this is one.
    pub fn as_flag(&self) -> (r: Option<bool>)
        ensures
            r == self.flag(),
    {
        match self {
            Json::Bool(b) => Some(*b),
            _ => None,
        }
    }

    /// The items, where this is a list.
    pub fn as_items(&self) -> (r: Option<&Vec<Json>>)
        ensures
            match r {
                Some(v) => self.items() == Some(v@),
                None => self.items() is None,
            },
    {
        match self {
            Json::List(v) => Some(v),
            _ => None,
        }
    }

    /// The text of a member.
    pub fn get_text(&self, key: &str) -> (r: Option<&str>)
        ensures
            match r {
                Some(s) => self.text_field(key@) == Some(s@),
                None => self.text_field(key@) is None,
            },
    {
        match self.get(key) {
            Some(v) => v.as_text(),
            None => None,
        }
    }

    /// The flag of a member.
    pub fn get_flag(&self, key: &str) -> (r: Option<bool>)
        ensures
            r == self.flag_field(key@),
    {
        match self.get(key) {
            Some(v) => v.as_flag(),
            None => None,
        }
    }

    /// The integer of a member, where it is not negative.
    pub fn get_unsigned(&self, key: &str) -> (r: Option<u64>)
        ensures
            r == self.unsigned_field(key@),
    {
        match self.get(key) {
            Some(v) => v.as_unsigned(),
            None => None,
        }
    }

    /// The items of a member that is a list.
    pub fn get_items(&self, key: &str) -> (r: Option<&Vec<Json>>)
        ensures
            match r {
                Some(v) => self.items_field(key@) == Some(v@),
                None => self.items_field(key@) is None,
            },
    {
        match self.get(key) {
            Some(v) => v.as_items(),
            None => None,
        }
    }
}

/// The texts among the items of a list.
pub open spec fn texts_among(items: Seq<Json>) -> Seq<Seq<char>>
    decreases items.len(),
{
    if items.len() == 0 {
        Seq::empty()
    } else {
        let rest = texts_among(items.drop_last());
        match items.last().text() {
            Some(s) => rest.push(s),
            None => rest,
        }
    }
}

/// The index of the first item from `from` on that is no text.
pub open spec fn first_non_text(items: Seq<Json>, from: int) -> Option<int>
    decreases items.len() - from,
{
    if from < 0 || from >= items.len() {
        None
    } else if items[from].text() is None {
        Some(from)
    } else {
        first_non_text(items, from + 1)
    }
}

/// The texts of a list of which every item is one.
pub open spec fn item_texts(items: Seq<Json>) -> Seq<Seq<char>> {
    Seq::new(items.len(), |i: int| items[i].text()->0)
}

/// The texts of a list, or the index of the first item that is none.
pub fn text_items(items: &Vec<Json>) -> (r: Result<Vec<String>, usize>)
    ensures
        match r {
            Ok(v) => first_non_text(items@, 0) is None && texts(v@) == item_texts(items@),
            Err(i) => first_non_text(items@, 0) == Some(i as int),
        },
{
    let mut out: Vec<String> = Vec::new();
    let mut i: usize = 0;
    while i < items.len()
        invariant
            i <= items.len(),
            first_non_text(items@, 0) == first_non_text(items@, i as int),
            out@.len() == i,
            forall|k: int| 0 <= k < i ==> (#[trigger] out@[k])@ == items@[k].text()->0,
        decreases items.len() - i,
    {
        match items[i].as_text() {
            Some(s) => {
                out.push(owned(s));
            },
            None => {
                return Err(i);
            },
        }
        i = i + 1;
    }
    assert(texts(out@) =~= item_texts(items@));
    Ok(out)
}

/// The texts among the items of a list, in order.
pub fn some_texts(items: &Vec<Json>) -> (r: Vec<String>)
    ensures
        texts(r@) == texts_among(items@),
{
    let mut out: Vec<String> = Vec::new();
    let mut i: usize = 0;
    assert(texts(out@) =~= Seq::<Seq<char>>::empty());
    while i < items.len()
        invariant
            i <= items.len(),
            texts(out@) == texts_among(items@.take(i as int)),
        decreases items.len() - i,
    {
        assert(items@.take(i + 1).drop_last() =~= items@.take(i as int));
        match items[i].as_text() {
            Some(s) => {
                let ghost before = texts(out@);
                out.push(owned(s));
                assert(texts(out@) =~= before.push(s@));
            },
            None => {},
        }
        i = i + 1;
    }
    assert(items@.take(i as int) =~= items@);
    out
}

/// The model of a `Json`.
#[verifier::ext_equal]
pub ghost enum JsonModel {
    Null,
    Bool(bool),
    Integer(int),
    Other(Seq<char>),
    Text(Seq<char>),
    List(Seq<JsonModel>),
    Object(Seq<(Seq<char>, JsonModel)>),
}

impl Json {
    /// The model of the value.
    pub open spec fn model(self) -> JsonModel
        decreases self,
    {
        match self {
            Json::Null => JsonModel::Null,
            Json::Bool(b) => JsonModel::Bool(b),
            Json::Number(JsonNumber::Unsigned(n)) => JsonModel::Integer(n as int),
            Json::Number(JsonNumber::Negative(n)) => JsonModel::Integer(n as int),
            Json::Number(JsonNumber::Other(s)) => JsonModel::Other(s@),
            Json::Text(s) => JsonModel::Text(s@),
            Json::List(v) => JsonModel::List(
                Seq::new(
                    v@.len(),
                    |i: int|
                        if 0 <= i < v@.len() {
                            v@[i].model()
                        } else {
                            arbitrary()
                        },
                ),
            ),
            Json::Object(m) => JsonModel::Object(
                Seq::new(
                    m@.len(),
                    |i: int|
                        if 0 <= i < m@.len() {
                            (m@[i].key@, m@[i].value.model())
                        } else {
                            arbitrary()
                        },
                ),
            ),
        }
    }
}

impl DeepView for Json {
    type V = JsonModel;

    open spec fn deep_view(&self) -> JsonModel {
        self.model()
    }
}

/// The hexadecimal digit of a number below sixteen.
pub open spec fn hex_char(d: int) -> char {
    if d < 10 {
        (d + '0' as int) as char
    } else {
        (d - 10 + 'a' as int) as char
    }
}

/// How a character stands in a quoted text.
pub open spec fn escaped(c: char) -> Seq<char> {
    if c == '"' {
        seq!['\\', '"']
    } else if c == '\\' {
        seq!['\\', '\\']
    } else if c == '\u{8}' {
        seq!['\\', 'b']
    } else if c == '\t' {
        seq!['\\', 't']
    } else if c == '\n' {
        seq!['\\', 'n']
    } else if c == '\u{c}' {
        seq!['\\', 'f']
    } else if c == '\r' {
        seq!['\\', 'r']
    } else if ' ' > c {
        seq!['\\', 'u', '0', '0', hex_char(c as int / 16), hex_char(c as int % 16)]
    } else {
        seq![c]
    }
}

/// The characters of a quoted text between its quotes.
pub open spec fn escaped_text(s: Seq<char>) -> Seq<char>
    decreases s.len(),
{
    if s.len() == 0 {
        Seq::empty()
    } else {
        escaped_text(s.drop_last()) + escaped(s.last())
    }
}

/// A text in quotes.
pub open spec fn quoted(s: Seq<char>) -> Seq<char> {
    "\""@ + escaped_text(s) + "\""@
}

/// `serde_json::Value::to_string` of a text: the text in quotes, where a quote and a
/// backslash stand behind a backslash, the control characters that have a short form
/// stand in it, and the others below the space as four hexadecimal digits.
#[verifier::external_body]
fn quote(s: &str) -> (r: String)
    ensures
        r@ == quoted(s@),
{
    serde_json::Value::from(s).to_string()
}

/// The text of a value, without white space.
pub open spec fn json_text(v: JsonModel) -> Seq<char>
    decreases v, 1int,
{
    match v {
        JsonModel::Null => "null"@,
        JsonModel::Bool(b) => if b {
            "true"@
        } else {
            "false"@
        },
        JsonModel::Integer(n) => if n < 0 {
            "-"@ + decimal((-n) as nat)
        } else {
            decimal(n as nat)
        },
        JsonModel::Other(s) => s,
        JsonModel::Text(s) => quoted(s),
        JsonModel::List(_) => "["@ + joined(json_parts(v), ","@) + "]"@,
        JsonModel::Object(_) => "{"@ + joined(json_parts(v), ","@) + "}"@,
    }
}

/// The texts of the items of a list, or of the members of an object.
pub open spec fn json_parts(v: JsonModel) -> Seq<Seq<char>>
    decreases v, 0int,
{
    match v {
        JsonModel::List(items) => Seq::new(
            items.len(),
            |i: int|
                if 0 <= i < items.len() {
                    json_text(items[i])
                } else {
                    arbitrary()
                },
        ),
        JsonModel::Object(members) => Seq::new(
            members.len(),
            |i: int|
                if 0 <= i < members.len() {
                    quoted(members[i].0) + ":"@ + json_text(members[i].1)
                } else {
                    arbitrary()
                },
        ),
        _ => Seq::empty(),
    }
}

proof fn lemma_smaller_item(v: Json, i: int)
    requires
        v is List,
        0 <= i < v->List_0@.len(),
    ensures
        decreases_to!(v => v->List_0@[i]),
{
    assert(decreases_to!(v => v->List_0));
    assert(decreases_to!(v->List_0 => v->List_0@));
    assert(decreases_to!(v->List_0@ => v->List_0@[i]));
}

proof fn lemma_smaller_member(v: Json, i: int)
    requires
        v is Object,
        0 <= i < v->Object_0@.len(),
    ensures
        decreases_to!(v => v->Object_0@[i].value),
{
    assert(decreases_to!(v => v->Object_0));
    assert(decreases_to!(v->Object_0 => v->Object_0@));
    assert(decreases_to!(v->Object_0@ => v->Object_0@[i]));
    assert(decreases_to!(v->Object_0@[i] => v->Object_0@[i].value));
}

impl Json {
    /// The text of the value.
    pub fn to_text(&self) -> (r: String)
        ensures
            r@ == json_text(self.model()),
        decreases *self,
    {
        match self {
            Json::Null => "null".to_owned(),
            Json::Bool(b) => {
                if *b {
                    "true".to_owned()
                } else {
                    "false".to_owned()
                }
            },
            Json::Number(JsonNumber::Unsigned(n)) => decimal_text(*n),
            Json::Number(JsonNumber::Negative(n)) => {
                if *n < 0 {
                    let mut s = "-".to_owned();
                    s.append(decimal_text((-(*n as i128)) as u64).as_str());
                    s
                } else {
                    decimal_text(*n as u64)
                }
            },
            Json::Number(JsonNumber::Other(s)) => owned(s.as_str()),
            Json::Text(s) => quote(s.as_str()),
            Json::List(v) => {
                let ghost parts = json_parts(self.model());
                let mut s = String::new();
                let mut i: usize = 0;
                while i < v.len()
                    invariant
                        i <= v.len(),
                        *self == Json::List(*v),
                        parts.len() == v@.len(),
                        forall|k: int|
                            0 <= k < v@.len() ==> #[trigger] parts[k] == json_text(v@[k].model()),
                        s@ == joined(parts.take(i as int), ","@),
                    decreases v.len() - i,
                {
                    assert(parts.take(i + 1).drop_last() =~= parts.take(i as int));
                    if i > 0 {
                        s.append(",");
                    }
                    proof {
                        lemma_smaller_item(*self, i as int);
                    }
                    s.append(v[i].to_text().as_str());
                    assert(parts[i as int] == json_text(v@[i as int].model()));
                    assert(s@ =~= joined(parts.take(i + 1), ","@));
                    i = i + 1;
                }
                assert(parts.take(i as int) =~= parts);
                let mut out = "[".to_owned();
                out.append(s.as_str());
                out.append("]");
                out
            },
            Json::Object(m) => {
                let ghost parts = json_parts(self.model());
                let mut s = String::new();
                let mut i: usize = 0;
                while i < m.len()
                    invariant
                        i <= m.len(),
                        *self == Json::Object(*m),
                        parts.len() == m@.len(),
                        forall|k: int|
                            0 <= k < m@.len() ==> #[trigger] parts[k] == quoted(m@[k].key@) + ":"@
                                + json_text(m@[k].value.model()),
                        s@ == joined(parts.take(i as int), ","@),
                    decreases m.len() - i,
                {
                    assert(parts.take(i + 1).drop_last() =~= parts.take(i as int));
                    if i > 0 {
                        s.append(",");
                    }
                    s.append(quote(m[i].key.as_str()).as_str());
                    s.append(":");
                    proof {
                        lemma_smaller_member(*self, i as int);
                    }
                    s.append(m[i].value.to_text().as_str());
                    assert(parts[i as int] == quoted(m@[i as int].key@) + ":"@ + json_text(
                        m@[i as int].value.model(),
                    ));
                    assert(s@ =~= joined(parts.take(i + 1), ","@));
                    i = i + 1;
                }
                assert(parts.take(i as int) =~= parts);
                let mut out = "{".to_owned();
                out.append(s.as_str());
                out.append("}");
                out
            },
        }
    }

    /// A copy of the value.
    pub fn copy(&self) -> (r: Json)
        ensures
            r.model() == self.model(),
        decreases *self,
    {
        match self {
            Json::Null => Json::Null,
            Json::Bool(b) => Json::Bool(*b),
            Json::Number(JsonNumber::Unsigned(n)) => Json::Number(JsonNumber::Unsigned(*n)),
            Json::Number(JsonNumber::Negative(n)) => Json::Number(JsonNumber::Negative(*n)),
            Json::Number(JsonNumber::Other(s)) => Json::Number(
                JsonNumber::Other(owned(s.as_str())),
            ),
            Json::Text(s) => Json::Text(owned(s.as_str())),
            Json::List(v) => {
                let mut out: Vec<Json> = Vec::new();
                let mut i: usize = 0;
                while i < v.len()
                    invariant
                        i <= v.len(),
                        *self == Json::List(*v),
                        out@.len() == i,
                        forall|k: int|
                            0 <= k < i ==> (#[trigger] out@[k]).model() == v@[k].model(),
                    decreases v.len() - i,
                {
                    proof {
                        lemma_smaller_item(*self, i as int);
                    }
                    out.push(v[i].copy());
                    i = i + 1;
                }
                let r = Json::List(out);
                assert(r.model()->List_0 =~= self.model()->List_0);
                r
            },
            Json::Object(m) => {
                let mut out: Vec<Member> = Vec::new();
                let mut i: usize = 0;
                while i < m.len()
                    invariant
                        i <= m.len(),
                        *self == Json::Object(*m),
                        out@.len() == i,
                        forall|k: int|
                            0 <= k < i ==> (#[trigger] out@[k]).key@ == m@[k].key@
                                && out@[k].value.model() == m@[k].value.model(),
                    decreases m.len() - i,
                {
                    proof {
                        lemma_smaller_member(*self, i as int);
                    }
                    out.push(Member { key: owned(m[i].key.as_str()), value: m[i].value.copy() });
                    i = i + 1;
                }
                let r = Json::Object(out);
                assert(r.model()->Object_0 =~= self.model()->Object_0);
                r
            },
        }
    }
}

proof fn lemma_member_value(members: Seq<Member>, key: Seq<char>, from: int, i: int)
    requires
        0 <= from <= i <= members.len(),
        forall|k: int| from <= k < i ==> (#[trigger] members[k]).key@ != key,
        i < members.len() ==> members[i].key@ == key,
    ensures
        member_value(members, key, from) == (if i < members.len() {
            Some(members[i].value)
        } else {
            None
        }),
    decreases i - from,
{
    if from < i {
        lemma_member_value(members, key, from + 1, i);
    }
}

/// What an object says under a key is the value of its first member with the key, taken only as
/// what it is: a text as a text, a flag as a flag, a number as a number, a list as its items. No
/// other value says anything.
pub proof fn members_are_found_by_their_keys(members: Vec<Member>, key: Seq<char>, i: int)
    requires
        0 <= i <= members@.len(),
        forall|k: int| 0 <= k < i ==> (#[trigger] members@[k]).key@ != key,
        i < members@.len() ==> members@[i].key@ == key,
    ensures
        i == members@.len() ==> Json::Object(members).field(key) is None && Json::Object(
            members,
        ).text_field(key) is None && Json::Object(members).flag_field(key) is None && Json::Object(
            members,
        ).unsigned_field(key) is None && Json::Object(members).items_field(key) is None,
        i < members@.len() ==> {
            let o = Json::Object(members);
            &&& o.field(key) == Some(members@[i].value)
            &&& match members@[i].value {
                Json::Text(s) => o.text_field(key) == Some(s@),
                _ => o.text_field(key) is None,
            }
            &&& match members@[i].value {
                Json::Bool(b) => o.flag_field(key) == Some(b),
                _ => o.flag_field(key) is None,
            }
            &&& match members@[i].value {
                Json::Number(JsonNumber::Unsigned(n)) => o.unsigned_field(key) == Some(n),
                _ => o.unsigned_field(key) is None,
            }
            &&& match members@[i].value {
                Json::List(v) => o.items_field(key) == Some(v@),
                _ => o.items_field(key) is None,
            }
        },
{
    lemma_member_value(members@, key, 0, i);
}

/// The texts among the items of a list are those items that are texts, in their order.
pub proof fn texts_keep_their_order(items: Seq<Json>, more: Seq<Json>)
    ensures
        texts_among(items + more) == texts_among(items) + texts_among(more),
        forall|s: String| #[trigger] texts_among(seq![Json::Text(s)]) == seq![s@],
        forall|j: Json|
            !(j is Text) ==> #[trigger] texts_among(seq![j]) == Seq::<Seq<char>>::empty(),
    decreases more.len(),
{
    reveal_with_fuel(texts_among, 3);
    assert forall|s: String| #[trigger] texts_among(seq![Json::Text(s)]) == seq![s@] by {
        assert(seq![Json::Text(s)].drop_last() =~= Seq::<Json>::empty());
        assert(texts_among(seq![Json::Text(s)]) =~= seq![s@]);
    }
    assert forall|j: Json| !(j is Text) implies #[trigger] texts_among(seq![j]) == Seq::<
        Seq<char>,
    >::empty() by {
        assert(seq![j].drop_last() =~= Seq::<Json>::empty());
    }
    if more.len() == 0 {
        assert(items + more =~= items);
        assert(texts_among(items) + texts_among(more) =~= texts_among(items));
    } else {
        texts_keep_their_order(items, more.drop_last());
        assert((items + more).drop_last() =~= items + more.drop_last());
        assert(texts_among(items + more) =~= texts_among(items) + texts_among(more));
    }
}

/// A value is written as it is: the words for nothing and for flags, numbers by their digits, texts in
/// quotes, and the items of a list and the members of an object in order, with commas between them.
pub proof fn values_are_written_as_they_are(v: JsonModel, n: nat, s: Seq<char>)
    ensures
        json_text(JsonModel::Null) == "null"@,
        json_text(JsonModel::Bool(true)) == "true"@,
        json_text(JsonModel::Bool(false)) == "false"@,
        json_text(JsonModel::Integer(n as int)) == decimal(n),
        n > 0 ==> json_text(JsonModel::Integer(-(n as int))) == seq!['-'] + decimal(n),
        json_text(JsonModel::Text(s)) == seq!['"'] + escaped_text(s) + seq!['"'],
        match v {
            JsonModel::List(items) => ({
                let parts = Seq::new(items.len(), |i: int| json_text(items[i]));
                json_text(v) == seq!['['] + joined(parts, seq![',']) + seq![']']
            }),
            JsonModel::Object(members) => ({
                let parts = Seq::new(
                    members.len(),
                    |i: int|
                        seq!['"'] + escaped_text(members[i].0) + seq!['"'] + seq![':'] + json_text(
                            members[i].1,
                        ),
                );
                json_text(v) == seq!['{'] + joined(parts, seq![',']) + seq!['}']
            }),
            _ => true,
        },
{
    reveal_with_fuel(json_text, 2);
    reveal_with_fuel(json_parts, 2);
    reveal_strlit("-");
    reveal_strlit("\"");
    reveal_strlit("[");
    reveal_strlit("]");
    reveal_strlit("{");
    reveal_strlit("}");
    reveal_strlit(",");
    reveal_strlit(":");
    assert("-"@ =~= seq!['-']);
    assert("\""@ =~= seq!['"']);
    assert("["@ =~= seq!['[']);
    assert("]"@ =~= seq![']']);
    assert("{"@ =~= seq!['{']);
    assert("}"@ =~= seq!['}']);
    assert(","@ =~= seq![',']);
    assert(":"@ =~= seq![':']);
    match v {
        JsonModel::List(items) => {
            assert(json_parts(v) =~= Seq::new(items.len(), |i: int| json_text(items[i])));
        },
        JsonModel::Object(members) => {
            assert(json_parts(v) =~= Seq::new(
                members.len(),
                |i: int|
                    seq!['"'] + escaped_text(members[i].0) + seq!['"'] + seq![':'] + json_text(
                        members[i].1,
                    ),
            ));
        },
        _ => {},
    }
}

/// A text is written character by character. Quotes and backslashes stand behind a backslash, line
/// feeds, carriage returns and tabs as their letters, and any other character that can be shown as it
/// is.
pub proof fn characters_are_written_behind_a_backslash(s: Seq<char>, c: char)
    ensures
        escaped_text(s.push(c)) == escaped_text(s) + escaped(c),
        escaped_text(Seq::empty()) == Seq::<char>::empty(),
        escaped('"') == seq!['\\', '"'],
        escaped('\\') == seq!['\\', '\\'],
        escaped('\n') == seq!['\\', 'n'],
        escaped('\r') == seq!['\\', 'r'],
        escaped('\t') == seq!['\\', 't'],
        c >= ' ' && c != '"' && c != '\\' ==> escaped(c) == seq![c],
{
    assert(s.push(c).drop_last() =~= s);
}

} // verus!
