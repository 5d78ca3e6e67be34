//! Language servers as a request describes them.
use vstd::prelude::*;

use crate::config::{ServerDef, UserServerDef};
use crate::json::{first_non_text, item_texts, text_items, Json, Member};
use crate::models::{group_models, models, set_entry, table_set, Entry};
use crate::text::{
    chars_of, decimal, decimal_text, owned, string_of, strip_leading, text3, text4, text5, texts,
    trim, trimmed, without_leading,
};

verus! {

/// What is said of an item of `lsp_servers`.
pub open spec fn server_error(index: int, rest: Seq<char>) -> Seq<char> {
    "configure: lsp_servers["@ + decimal(index as nat) + "]"@ + rest
}

fn server_error_text(index: usize, rest: &str) -> (r: String)
    ensures
        r@ == server_error(index as int, rest@),
{
    text4("configure: lsp_servers[", decimal_text(index as u64).as_str(), "]", rest)
}

/// The trimmed text of a required member.
pub open spec fn required_text(value: Option<Json>, index: int, field: Seq<char>) -> Result<
    Seq<char>,
    Seq<char>,
> {
    match value {
        Some(Json::Text(s)) => if trimmed(s@).len() == 0 {
            Err(server_error(index, "."@ + field + " must not be empty"@))
        } else {
            Ok(trimmed(s@))
        },
        _ => Err(server_error(index, "."@ + field + " must be a string"@)),
    }
}

/// The value behind an optional reference.
pub open spec fn value_of(v: Option<&Json>) -> Option<Json> {
    match v {
        Some(x) => Some(*x),
        None => None,
    }
}

fn required_string(value: Option<&Json>, index: usize, field: &str) -> (r: Result<String, String>)
    ensures
        match (r, required_text(value_of(value), index as int, field@)) {
            (Ok(s), Ok(t)) => s@ == t,
            (Err(e), Err(m)) => e@ == m,
            _ => false,
        },
{
    match value {
        Some(Json::Text(s)) => {
            let t = trim(s.as_str());
            if t.as_str().is_empty() {
                Err(server_error_text(index, text3(".", field, " must not be empty").as_str()))
            } else {
                Ok(t)
            }
        },
        _ => Err(server_error_text(index, text3(".", field, " must be a string").as_str())),
    }
}

/// A text without white space round it and without leading dots.
pub open spec fn bare(s: Seq<char>) -> Seq<char> {
    without_leading(trimmed(s), '.')
}

/// The texts of an optional member that is a list of texts.
pub open spec fn optional_texts(value: Option<Json>, index: int, field: Seq<char>) -> Result<
    Seq<Seq<char>>,
    Seq<char>,
> {
    match value {
        None => Ok(Seq::empty()),
        Some(Json::List(items)) => match first_non_text(items@, 0) {
            Some(i) => Err(
                server_error(
                    index,
                    "."@ + field + "["@ + decimal(i as nat) + "] must be a string"@,
                ),
            ),
            None => Ok(item_texts(items@).map_values(|s: Seq<char>| bare(s))),
        },
        Some(_) => Err(server_error(index, "."@ + field + " must be an array of strings"@)),
    }
}

fn optional_string_array(value: Option<&Json>, index: usize, field: &str) -> (r: Result<
    Vec<String>,
    String,
>)
    ensures
        match (r, optional_texts(value_of(value), index as int, field@)) {
            (Ok(v), Ok(t)) => models(v@) == t,
            (Err(e), Err(m)) => e@ == m,
            _ => false,
        },
{
    match value {
        None => {
            let v: Vec<String> = Vec::new();
            assert(models(v@) =~= Seq::<Seq<char>>::empty());
            Ok(v)
        },
        Some(Json::List(items)) => {
            match text_items(items) {
                Err(i) => Err(
                    server_error_text(
                        index,
                        text5(".", field, "[", decimal_text(i as u64).as_str(), "] must be a string").as_str(),
                    ),
                ),
                Ok(raw) => {
                    let mut out: Vec<String> = Vec::new();
                    let mut i: usize = 0;
                    while i < raw.len()
                        invariant
                            i <= raw.len(),
                            out@.len() == i,
                            forall|k: int| 0 <= k < i ==> (#[trigger] out@[k])@ == bare(raw@[k]@),
                        decreases raw.len() - i,
                    {
                        let t = trim(raw[i].as_str());
                        let c = chars_of(t.as_str());
                        out.push(string_of(strip_leading(c.as_slice(), '.')));
                        i = i + 1;
                    }
                    proof {
                        let want = item_texts(items@).map_values(|s: Seq<char>| bare(s));
                        assert forall|k: int| 0 <= k < want.len() implies models(out@)[k]
                            == want[k] by {
                            assert(texts(raw@)[k] == raw@[k]@);
                        }
                        assert(models(out@) =~= want);
                    }
                    Ok(out)
                },
            }
        },
        Some(_) => Err(
            server_error_text(index, text3(".", field, " must be an array of strings").as_str()),
        ),
    }
}

/// The texts of a member that is a list of at least one text.
pub open spec fn required_texts(value: Option<Json>, index: int, field: Seq<char>) -> Result<
    Seq<Seq<char>>,
    Seq<char>,
> {
    match optional_texts(value, index, field) {
        Err(m) => Err(m),
        Ok(t) => if t.len() == 0 {
            Err(server_error(index, "."@ + field + " must not be empty"@))
        } else {
            Ok(t)
        },
    }
}

fn required_string_array(value: Option<&Json>, index: usize, field: &str) -> (r: Result<
    Vec<String>,
    String,
>)
    ensures
        match (r, required_texts(value_of(value), index as int, field@)) {
            (Ok(v), Ok(t)) => models(v@) == t,
            (Err(e), Err(m)) => e@ == m,
            _ => false,
        },
{
    match optional_string_array(value, index, field) {
        Err(e) => Err(e),
        Ok(v) => {
            if v.len() == 0 {
                Err(server_error_text(index, text3(".", field, " must not be empty").as_str()))
            } else {
                Ok(v)
            }
        },
    }
}

/// The members before the `n`-th as a table, or the key of the first that is no text.
pub open spec fn text_members(members: Seq<Member>, n: int) -> Result<
    Seq<(Seq<char>, Seq<char>)>,
    Seq<char>,
>
    decreases n,
{
    if n <= 0 || n > members.len() {
        Ok(Seq::empty())
    } else {
        match text_members(members, n - 1) {
            Err(key) => Err(key),
            Ok(t) => match members[n - 1].value.text() {
                Some(s) => Ok(table_set(t, members[n - 1].key@, s)),
                None => Err(members[n - 1].key@),
            },
        }
    }
}

proof fn lemma_first_bad_member(members: Seq<Member>, i: int, n: int)
    requires
        0 <= i < n <= members.len(),
        text_members(members, i) is Ok,
        members[i].value.text() is None,
    ensures
        text_members(members, n) == Err::<Seq<(Seq<char>, Seq<char>)>, Seq<char>>(members[i].key@),
    decreases n,
{
    if n - 1 > i {
        lemma_first_bad_member(members, i, n - 1);
    }
}

/// The variables that a server is started with.
pub open spec fn server_env(value: Option<Json>, index: int) -> Result<
    Seq<(Seq<char>, Seq<char>)>,
    Seq<char>,
> {
    match value {
        None => Ok(Seq::empty()),
        Some(Json::Object(members)) => match text_members(members@, members@.len() as int) {
            Err(key) => Err(server_error(index, ".env."@ + key + " must be a string"@)),
            Ok(t) => Ok(t),
        },
        Some(_) => Err(server_error(index, ".env must be an object"@)),
    }
}

fn parse_lsp_server_env(value: Option<&Json>, index: usize) -> (r: Result<
    Vec<Entry<String>>,
    String,
>)
    ensures
        match (r, server_env(value_of(value), index as int)) {
            (Ok(v), Ok(t)) => models(v@) == t,
            (Err(e), Err(m)) => e@ == m,
            _ => false,
        },
{
    broadcast use group_models;

    let mut env: Vec<Entry<String>> = Vec::new();
    match value {
        None => {
            return Ok(env);
        },
        Some(Json::Object(members)) => {
            let mut i: usize = 0;
            while i < members.len()
                invariant
                    i <= members.len(),
                    value_of(value) == Some(Json::Object(*members)),
                    text_members(members@, i as int) == Ok::<
                        Seq<(Seq<char>, Seq<char>)>,
                        Seq<char>,
                    >(models(env@)),
                decreases members.len() - i,
            {
                match members[i].value.as_text() {
                    Some(s) => {
                        set_entry(&mut env, owned(members[i].key.as_str()), owned(s));
                    },
                    None => {
                        proof {
                            lemma_first_bad_member(members@, i as int, members@.len() as int);
                        }
                        return Err(
                            server_error_text(
                                index,
                                text3(".env.", members[i].key.as_str(), " must be a string").as_str(),
                            ),
                        );
                    },
                }
                i = i + 1;
            }
            Ok(env)
        },
        Some(_) => Err(server_error_text(index, ".env must be an object")),
    }
}

/// Whether a server is switched off.
pub open spec fn server_disabled(value: Option<Json>, index: int) -> Result<bool, Seq<char>> {
    match value {
        None => Ok(false),
        Some(Json::Bool(b)) => Ok(b),
        Some(_) => Err(server_error(index, ".disabled must be a boolean"@)),
    }
}

/// The server that an item of `lsp_servers` describes. Of several faults the first in
/// the order of the members is told.
pub open spec fn server_of(value: Json, index: int) -> Result<ServerDef, Seq<char>> {
    if !(value is Object) {
        Err(server_error(index, " must be an object"@))
    } else {
        match (
            required_text(value.field("id"@), index, "id"@),
            required_texts(value.field("extensions"@), index, "extensions"@),
            required_text(value.field("binary"@), index, "binary"@),
            optional_texts(value.field("args"@), index, "args"@),
            optional_texts(value.field("root_markers"@), index, "root_markers"@),
            server_env(value.field("env"@), index),
            server_disabled(value.field("disabled"@), index),
        ) {
            (Err(m), _, _, _, _, _, _) => Err(m),
            (_, Err(m), _, _, _, _, _) => Err(m),
            (_, _, Err(m), _, _, _, _) => Err(m),
            (_, _, _, Err(m), _, _, _) => Err(m),
            (_, _, _, _, Err(m), _, _) => Err(m),
            (_, _, _, _, _, Err(m), _) => Err(m),
            (_, _, _, _, _, _, Err(m)) => Err(m),
            (
                Ok(id),
                Ok(extensions),
                Ok(binary),
                Ok(args),
                Ok(root_markers),
                Ok(env),
                Ok(disabled),
            ) => Ok(
                ServerDef {
                    id,
                    extensions,
                    binary,
                    args,
                    root_markers,
                    env,
                    initialization_options: match value.field("initialization_options"@) {
                        Some(v) => Some(v.model()),
                        None => None,
                    },
                    disabled,
                },
            ),
        }
    }
}

/// The server that an item of `lsp_servers` describes.
pub fn parse_lsp_server(value: &Json, index: usize) -> (r: Result<UserServerDef, String>)
    ensures
        match (r, server_of(*value, index as int)) {
            (Ok(s), Ok(t)) => s.deep_view() == t,
            (Err(e), Err(m)) => e@ == m,
            _ => false,
        },
{
    match value {
        Json::Object(_) => {},
        _ => {
            return Err(server_error_text(index, " must be an object"));
        },
    }
    let id = match required_string(value.get("id"), index, "id") {
        Ok(v) => v,
        Err(e) => {
            return Err(e);
        },
    };
    let extensions = match required_string_array(value.get("extensions"), index, "extensions") {
        Ok(v) => v,
        Err(e) => {
            return Err(e);
        },
    };
    let binary = match required_string(value.get("binary"), index, "binary") {
        Ok(v) => v,
        Err(e) => {
            return Err(e);
        },
    };
    let args = match optional_string_array(value.get("args"), index, "args") {
        Ok(v) => v,
        Err(e) => {
            return Err(e);
        },
    };
    let root_markers = match optional_string_array(
        value.get("root_markers"),
        index,
        "root_markers",
    ) {
        Ok(v) => v,
        Err(e) => {
            return Err(e);
        },
    };
    let env = match parse_lsp_server_env(value.get("env"), index) {
        Ok(v) => v,
        Err(e) => {
            return Err(e);
        },
    };
    let initialization_options = match value.get("initialization_options") {
        Some(v) => Some(v.copy()),
        None => None,
    };
    let disabled = match value.get("disabled") {
        None => false,
        Some(Json::Bool(b)) => *b,
        Some(_) => {
            return Err(server_error_text(index, ".disabled must be a boolean"));
        },
    };
    Ok(
        UserServerDef {
            id,
            extensions,
            binary,
            args,
            root_markers,
            env,
            initialization_options,
            disabled,
        },
    )
}

/// The servers that the items from `from` on describe, or what is wrong with the first
/// that describes none.
pub open spec fn servers_from(items: Seq<Json>, from: int) -> Result<Seq<ServerDef>, Seq<char>>
    decreases items.len() - from,
{
    if from < 0 || from >= items.len() {
        Ok(Seq::empty())
    } else {
        match (server_of(items[from], from), servers_from(items, from + 1)) {
            (Err(m), _) => Err(m),
            (_, Err(m)) => Err(m),
            (Ok(s), Ok(rest)) => Ok(seq![s] + rest),
        }
    }
}

/// The servers that `lsp_servers` describes.
pub open spec fn servers_of(value: Json) -> Result<Seq<ServerDef>, Seq<char>> {
    match value {
        Json::List(items) => servers_from(items@, 0),
        _ => Err("configure: lsp_servers must be an array"@),
    }
}

/// The servers that `lsp_servers` describes.
pub fn parse_lsp_servers(value: &Json) -> (r: Result<Vec<UserServerDef>, String>)
    ensures
        match (r, servers_of(*value)) {
            (Ok(v), Ok(t)) => models(v@) == t,
            (Err(e), Err(m)) => e@ == m,
            _ => false,
        },
{
    broadcast use group_models;

    let items = match value {
        Json::List(items) => items,
        _ => {
            return Err(owned("configure: lsp_servers must be an array"));
        },
    };
    let mut out: Vec<UserServerDef> = Vec::new();
    let mut i: usize = 0;
    proof {
        if servers_from(items@, 0) is Ok {
            assert(models(out@) + servers_from(items@, 0)->Ok_0 =~= servers_from(items@, 0)->Ok_0);
        }
    }
    while i < items.len()
        invariant
            i <= items.len(),
            *value == Json::List(*items),
            match (servers_from(items@, 0), servers_from(items@, i as int)) {
                (Ok(all), Ok(rest)) => models(out@) + rest == all,
                (Err(a), Err(b)) => a == b,
                _ => false,
            },
        decreases items.len() - i,
    {
        match parse_lsp_server(&items[i], i) {
            Err(e) => {
                return Err(e);
            },
            Ok(s) => {
                let ghost before = models(out@);
                let ghost m = s.deep_view();
                out.push(s);
                assert(models(out@) == before.push(m));
                proof {
                    if servers_from(items@, i + 1) is Ok {
                        let rest = servers_from(items@, i + 1)->Ok_0;
                        assert(before + (seq![m] + rest) =~= before.push(m) + rest);
                    }
                }
            },
        }
        i = i + 1;
    }
    assert(models(out@) + Seq::<ServerDef>::empty() =~= models(out@));
    Ok(out)
}

/// A server is what its item says: a name and a program, without white space around them, and
/// extensions, of which there is one at least; it runs unless it is switched off. An item without
/// these describes none.
pub proof fn servers_are_what_their_items_say(value: Json, index: int)
    ensures
        match server_of(value, index) {
            Ok(d) => {
                &&& value.text_field("id"@) is Some && d.id == trimmed(value.text_field("id"@)->0)
                    && d.id.len() > 0
                &&& value.text_field("binary"@) is Some && d.binary == trimmed(
                    value.text_field("binary"@)->0,
                ) && d.binary.len() > 0
                &&& d.extensions.len() > 0
                &&& value.field("disabled"@) is None ==> !d.disabled
                &&& value.flag_field("disabled"@) is Some ==> d.disabled == value.flag_field(
                    "disabled"@,
                )->0
                &&& value.field("args"@) is None ==> d.args.len() == 0
                &&& value.field("root_markers"@) is None ==> d.root_markers.len() == 0
                &&& value.field("env"@) is None ==> d.env.len() == 0
                &&& value.items_field("extensions"@) is Some && d.extensions.len() == item_texts(
                    value.items_field("extensions"@)->0,
                ).len()
                &&& forall|i: int|
                    0 <= i < d.extensions.len() ==> (#[trigger] d.extensions[i])
                        == without_leading(
                        trimmed(item_texts(value.items_field("extensions"@)->0)[i]),
                        '.',
                    )
                &&& value.field("initialization_options"@) is None
                    ==> d.initialization_options is None
            },
            Err(_) => true,
        },
        value is Object && value.text_field("id"@) is None ==> server_of(value, index) is Err,
        value is Object && value.text_field("binary"@) is None ==> server_of(value, index) is Err,
        !(value is Object) ==> server_of(value, index) is Err,
{
}

/// Servers are taken in order, one for each item, and an item that describes none refuses them all.
pub proof fn servers_are_taken_in_order(items: Seq<Json>, from: int)
    requires
        0 <= from <= items.len(),
    ensures
        match servers_from(items, from) {
            Ok(list) => list.len() == items.len() - from && forall|i: int|
                0 <= i < list.len() ==> server_of(items[from + i], from + i) == Ok::<
                    ServerDef,
                    Seq<char>,
                >(#[trigger] list[i]),
            Err(m) => exists|i: int|
                from <= i < items.len() && server_of(#[trigger] items[i], i) == Err::<
                    ServerDef,
                    Seq<char>,
                >(m),
        },
    decreases items.len() - from,
{
    if from < items.len() {
        servers_are_taken_in_order(items, from + 1);
        match servers_from(items, from) {
            Ok(list) => {
                let rest = servers_from(items, from + 1)->Ok_0;
                assert forall|i: int| 0 <= i < list.len() implies server_of(
                    items[from + i],
                    from + i,
                ) == Ok::<ServerDef, Seq<char>>(#[trigger] list[i]) by {
                    if i > 0 {
                        assert(list[i] == rest[i - 1]);
                    }
                }
            },
            Err(m) => {
                if server_of(items[from], from) is Err {
                    assert(server_of(items[from], from) == Err::<ServerDef, Seq<char>>(m));
                }
            },
        }
    }
}

} // verus!
