//! Single settings as a request gives them.
use vstd::prelude::*;

use crate::config::{Semantic, SemanticBackendConfig};
use crate::json::{first_non_text, item_texts, text_items, Json};
use crate::models::{get_entry, group_models, models, table_get, Entry};
use crate::order::{add_distinct, distinct};
use crate::paths::{
    absolute, components, has_parent, is_absolute, normalize_components, normalized,
    path_components, render, rendered, Comp,
};
use crate::text::{
    ascii_lowered, contains_text, decimal, decimal_text, owned, text2, text3, text4, text5,
    texts,
    to_ascii_lower, trim, trimmed,
};

verus! {

/// The directory of a `storage_dir`: absolute, and without `..`.
pub open spec fn storage_dir_of(raw: Seq<char>) -> Result<Seq<char>, Seq<char>> {
    if !absolute(raw) {
        Err("configure: storage_dir must be an absolute path"@)
    } else if normalized(path_components(raw)).contains(Comp::Parent) {
        Err("configure: storage_dir must not escape via '..' traversal"@)
    } else {
        Ok(rendered(normalized(path_components(raw))))
    }
}

/// The directory of a `storage_dir`.
pub fn validate_storage_dir(raw: &str) -> (r: Result<String, String>)
    ensures
        match (r, storage_dir_of(raw@)) {
            (Ok(s), Ok(t)) => s@ == t,
            (Err(e), Err(m)) => e@ == m,
            _ => false,
        },
{
    if !is_absolute(raw) {
        return Err(owned("configure: storage_dir must be an absolute path"));
    }
    let list = normalize_components(raw);
    if has_parent(&list) {
        return Err(owned("configure: storage_dir must not escape via '..' traversal"));
    }
    Ok(render(&list))
}

/// What a path is once links are followed.
pub enum PathResolution {
    /// It is there, under this canonical path.
    Found { canonical: String, is_dir: bool },
    /// There is no such path.
    Missing,
    /// It could not be followed.
    Failed { error: String },
}

/// The model of a `PathResolution`.
pub ghost enum Resolution {
    Found { canonical: Seq<char>, is_dir: bool },
    Missing,
    Failed { error: Seq<char> },
}

impl DeepView for PathResolution {
    type V = Resolution;

    open spec fn deep_view(&self) -> Resolution {
        match *self {
            PathResolution::Found { canonical, is_dir } => Resolution::Found {
                canonical: canonical@,
                is_dir,
            },
            PathResolution::Missing => Resolution::Missing,
            PathResolution::Failed { error } => Resolution::Failed { error: error@ },
        }
    }
}

/// What is said of an item of `lsp_paths_extra`.
pub open spec fn extra_path_error(index: int, rest: Seq<char>) -> Seq<char> {
    "configure: lsp_paths_extra["@ + decimal(index as nat) + "]"@ + rest
}

fn extra_path_error_text(index: usize, rest: &str) -> (r: String)
    ensures
        r@ == extra_path_error(index as int, rest@),
{
    text4("configure: lsp_paths_extra[", decimal_text(index as u64).as_str(), "]", rest)
}

/// The directory of an item of `lsp_paths_extra`: an absolute path without `..` that is a
/// directory once links are followed, or that is not there yet.
pub open spec fn extra_path(
    item: Json,
    index: int,
    resolved: Seq<(Seq<char>, Resolution)>,
) -> Result<Seq<char>, Seq<char>> {
    match item.text() {
        None => Err(extra_path_error(index, " must be a string"@)),
        Some(raw) => if raw.len() == 0 {
            Err(extra_path_error(index, " must not be empty"@))
        } else if !absolute(raw) {
            Err(extra_path_error(index, " must be an absolute path: "@ + raw))
        } else if path_components(raw).contains(Comp::Parent) {
            Err(extra_path_error(index, " must not contain '..' traversal: "@ + raw))
        } else {
            match table_get(resolved, raw) {
                Some(Resolution::Found { canonical, is_dir }) => if path_components(
                    canonical,
                ).contains(Comp::Parent) {
                    Err(
                        extra_path_error(
                            index,
                            " resolved path must not contain '..' traversal: "@ + canonical,
                        ),
                    )
                } else if !is_dir {
                    Err(extra_path_error(index, " must resolve to a directory: "@ + canonical))
                } else {
                    Ok(canonical)
                },
                Some(Resolution::Failed { error }) => Err(
                    extra_path_error(index, " could not be resolved: "@ + error),
                ),
                Some(Resolution::Missing) => Ok(raw),
                None => Ok(raw),
            }
        },
    }
}

fn parse_extra_path(item: &Json, index: usize, resolved: &Vec<Entry<PathResolution>>) -> (r: Result<
    String,
    String,
>)
    ensures
        match (r, extra_path(*item, index as int, models(resolved@))) {
            (Ok(s), Ok(t)) => s@ == t,
            (Err(e), Err(m)) => e@ == m,
            _ => false,
        },
{
    let raw = match item.as_text() {
        Some(raw) => raw,
        None => {
            return Err(extra_path_error_text(index, " must be a string"));
        },
    };
    if raw.is_empty() {
        return Err(extra_path_error_text(index, " must not be empty"));
    }
    if !is_absolute(raw) {
        return Err(
            extra_path_error_text(
                index,
                text2(" must be an absolute path: ", raw).as_str(),
            ),
        );
    }
    if has_parent(&components(raw)) {
        return Err(
            extra_path_error_text(
                index,
                text2(" must not contain '..' traversal: ", raw).as_str(),
            ),
        );
    }
    match get_entry(resolved, raw) {
        Some(PathResolution::Found { canonical, is_dir }) => {
            if has_parent(&components(canonical.as_str())) {
                return Err(
                    extra_path_error_text(
                        index,
                        text2(
                            " resolved path must not contain '..' traversal: ",
                            canonical.as_str(),
                        ).as_str(),
                    ),
                );
            }
            if !*is_dir {
                return Err(
                    extra_path_error_text(
                        index,
                        text2(
                            " must resolve to a directory: ",
                            canonical.as_str(),
                        ).as_str(),
                    ),
                );
            }
            Ok(owned(canonical.as_str()))
        },
        Some(PathResolution::Failed { error }) => Err(
            extra_path_error_text(
                index,
                text2(" could not be resolved: ", error.as_str()).as_str(),
            ),
        ),
        Some(PathResolution::Missing) => Ok(owned(raw)),
        None => Ok(owned(raw)),
    }
}

/// The directories of the items from `from` on, or what is wrong with the first bad one.
pub open spec fn extra_paths_from(
    items: Seq<Json>,
    from: int,
    resolved: Seq<(Seq<char>, Resolution)>,
) -> Result<Seq<Seq<char>>, Seq<char>>
    decreases items.len() - from,
{
    if from < 0 || from >= items.len() {
        Ok(Seq::empty())
    } else {
        match (
            extra_path(items[from], from, resolved),
            extra_paths_from(items, from + 1, resolved),
        ) {
            (Err(m), _) => Err(m),
            (_, Err(m)) => Err(m),
            (Ok(p), Ok(rest)) => Ok(seq![p] + rest),
        }
    }
}

/// The directories of `lsp_paths_extra`.
pub open spec fn extra_paths(value: Json, resolved: Seq<(Seq<char>, Resolution)>) -> Result<
    Seq<Seq<char>>,
    Seq<char>,
> {
    match value {
        Json::List(items) => extra_paths_from(items@, 0, resolved),
        _ => Err("configure: lsp_paths_extra must be an array of strings"@),
    }
}

/// The directories of `lsp_paths_extra`. `resolved` tells by path what is there once
/// links are followed; a path without an entry is not there.
pub fn parse_lsp_paths_extra(value: &Json, resolved: &Vec<Entry<PathResolution>>) -> (r: Result<
    Vec<String>,
    String,
>)
    ensures
        match (r, extra_paths(*value, models(resolved@))) {
            (Ok(v), Ok(t)) => models(v@) == t,
            (Err(e), Err(m)) => e@ == m,
            _ => false,
        },
{
    broadcast use group_models;

    let items = match value {
        Json::List(items) => items,
        _ => {
            return Err(owned("configure: lsp_paths_extra must be an array of strings"));
        },
    };
    let ghost res = models(resolved@);
    let mut out: Vec<String> = Vec::new();
    let mut i: usize = 0;
    proof {
        if extra_paths_from(items@, 0, res) is Ok {
            let all = extra_paths_from(items@, 0, res)->Ok_0;
            assert(models(out@) + all =~= all);
        }
    }
    while i < items.len()
        invariant
            i <= items.len(),
            res == models(resolved@),
            *value == Json::List(*items),
            match (extra_paths_from(items@, 0, res), extra_paths_from(items@, i as int, res)) {
                (Ok(all), Ok(rest)) => models(out@) + rest == all,
                (Err(a), Err(b)) => a == b,
                _ => false,
            },
        decreases items.len() - i,
    {
        match parse_extra_path(&items[i], i, resolved) {
            Err(e) => {
                return Err(e);
            },
            Ok(s) => {
                let ghost before = models(out@);
                let ghost m = s@;
                out.push(s);
                assert(models(out@) == before.push(m));
                proof {
                    if extra_paths_from(items@, i + 1, res) is Ok {
                        let rest = extra_paths_from(items@, i + 1, res)->Ok_0;
                        assert(before + (seq![m] + rest) =~= before.push(m) + rest);
                    }
                }
            },
        }
        i = i + 1;
    }
    assert(models(out@) + Seq::<Seq<char>>::empty() =~= models(out@));
    Ok(out)
}

/// The set of texts that a list of texts holds, in the order of their first occurrence.
pub open spec fn text_set(value: Json, field: Seq<char>) -> Result<Seq<Seq<char>>, Seq<char>> {
    match value {
        Json::List(items) => match first_non_text(items@, 0) {
            Some(i) => Err(
                "configure: "@ + field + "["@ + decimal(i as nat) + "] must be a string"@,
            ),
            None => Ok(distinct(item_texts(items@))),
        },
        _ => Err("configure: "@ + field + " must be an array of strings"@),
    }
}

/// The set of the texts of a list, each in lower case as far as it is ASCII.
pub open spec fn lowered_text_set(value: Json, field: Seq<char>) -> Result<
    Seq<Seq<char>>,
    Seq<char>,
> {
    match value {
        Json::List(items) => match first_non_text(items@, 0) {
            Some(i) => Err(
                "configure: "@ + field + "["@ + decimal(i as nat) + "] must be a string"@,
            ),
            None => Ok(distinct(item_texts(items@).map_values(|s: Seq<char>| ascii_lowered(s)))),
        },
        _ => Err("configure: "@ + field + " must be an array of strings"@),
    }
}

fn set_of(list: Vec<String>) -> (r: Vec<String>)
    ensures
        models(r@) == distinct(models(list@)),
{
    broadcast use group_models;

    let ghost all = models(list@);
    let mut out: Vec<String> = Vec::new();
    let mut i: usize = 0;
    while i < list.len()
        invariant
            i <= list.len(),
            all == models(list@),
            models(out@) == distinct(all.take(i as int)),
        decreases list.len() - i,
    {
        assert(all.take(i + 1).drop_last() =~= all.take(i as int));
        let _added = add_distinct(&mut out, owned(list[i].as_str()));
        i = i + 1;
    }
    assert(all.take(i as int) =~= all);
    out
}

/// The set of texts that a list of texts holds.
pub fn parse_string_set(value: &Json, field: &str) -> (r: Result<Vec<String>, String>)
    ensures
        match (r, text_set(*value, field@)) {
            (Ok(v), Ok(t)) => models(v@) == t,
            (Err(e), Err(m)) => e@ == m,
            _ => false,
        },
{
    match value {
        Json::List(items) => {
            match text_items(items) {
                Err(i) => Err(
                    text5(
                        "configure: ",
                        field,
                        "[",
                        decimal_text(i as u64).as_str(),
                        "] must be a string",
                    ),
                ),
                Ok(list) => {
                    assert(models(list@) =~= texts(list@));
                    Ok(set_of(list))
                },
            }
        },
        _ => Err(text3("configure: ", field, " must be an array of strings")),
    }
}

/// The language servers that are switched off, in lower case.
pub fn parse_disabled_lsp(value: &Json) -> (r: Result<Vec<String>, String>)
    ensures
        match (r, lowered_text_set(*value, "disabled_lsp"@)) {
            (Ok(v), Ok(t)) => models(v@) == t,
            (Err(e), Err(m)) => e@ == m,
            _ => false,
        },
{
    match value {
        Json::List(items) => {
            match text_items(items) {
                Err(i) => Err(
                    text5(
                        "configure: ",
                        "disabled_lsp",
                        "[",
                        decimal_text(i as u64).as_str(),
                        "] must be a string",
                    ),
                ),
                Ok(list) => {
                    let mut low: Vec<String> = Vec::new();
                    let mut i: usize = 0;
                    while i < list.len()
                        invariant
                            i <= list.len(),
                            low@.len() == i,
                            forall|k: int|
                                0 <= k < i ==> (#[trigger] low@[k])@ == ascii_lowered(list@[k]@),
                        decreases list.len() - i,
                    {
                        low.push(to_ascii_lower(list[i].as_str()));
                        i = i + 1;
                    }
                    proof {
                        let want = item_texts(items@).map_values(|s: Seq<char>| ascii_lowered(s));
                        assert forall|k: int| 0 <= k < want.len() implies models(low@)[k]
                            == want[k] by {
                            assert(texts(list@)[k] == list@[k]@);
                        }
                        assert(models(low@) =~= want);
                    }
                    Ok(set_of(low))
                },
            }
        },
        _ => Err(text3("configure: ", "disabled_lsp", " must be an array of strings")),
    }
}

/// The trimmed text of a member of `semantic`, `None` where it is not given.
pub open spec fn semantic_text(value: Json, field: Seq<char>) -> Result<
    Option<Seq<char>>,
    Seq<char>,
> {
    match value.field(field) {
        None => Ok(None),
        Some(v) => match v.text() {
            Some(s) => Ok(Some(trimmed(s))),
            None => Err("configure: semantic."@ + field + " must be a string"@),
        },
    }
}

fn read_semantic_text(value: &Json, field: &str) -> (r: Result<Option<String>, String>)
    ensures
        match (r, semantic_text(*value, field@)) {
            (Ok(s), Ok(t)) => s.deep_view() == t,
            (Err(e), Err(m)) => e@ == m,
            _ => false,
        },
{
    match value.get(field) {
        None => Ok(None),
        Some(v) => match v.as_text() {
            Some(s) => Ok(Some(trim(s))),
            None => Err(text3("configure: semantic.", field, " must be a string")),
        },
    }
}

/// The number of a member of `semantic`, `None` where it is not given.
pub open spec fn semantic_number(value: Json, field: Seq<char>) -> Result<Option<u64>, Seq<char>> {
    match value.field(field) {
        None => Ok(None),
        Some(v) => match v.unsigned() {
            Some(n) => Ok(Some(n)),
            None => Err("configure: semantic."@ + field + " must be an unsigned integer"@),
        },
    }
}

fn read_semantic_number(value: &Json, field: &str) -> (r: Result<Option<u64>, String>)
    ensures
        match (r, semantic_number(*value, field@)) {
            (Ok(s), Ok(t)) => s == t,
            (Err(e), Err(m)) => e@ == m,
            _ => false,
        },
{
    match value.get(field) {
        None => Ok(None),
        Some(v) => match v.as_unsigned() {
            Some(n) => Ok(Some(n)),
            None => Err(text3("configure: semantic.", field, " must be an unsigned integer")),
        },
    }
}

/// A given text, or the one that stands now.
pub open spec fn given_or(given: Option<Seq<char>>, now: Seq<char>) -> Seq<char> {
    match given {
        Some(s) => s,
        None => now,
    }
}

/// A given text, which is no text where it is empty, or the one that stands now.
pub open spec fn given_or_cleared(given: Option<Seq<char>>, now: Option<Seq<char>>) -> Option<
    Seq<char>,
> {
    match given {
        Some(s) => if s.len() == 0 {
            None
        } else {
            Some(s)
        },
        None => now,
    }
}

/// What stands after `semantic` is applied to what stands now, member by member; of several
/// faults the first is told. `backends` are the names of the backends that there are, and
/// `url_fault` is what is wrong with the base URL that is asked for.
pub open spec fn semantic_of(
    value: Json,
    current: Semantic,
    backends: Seq<Seq<char>>,
    url_fault: Option<Seq<char>>,
) -> Result<Semantic, Seq<char>> {
    if !(value is Object) {
        Err("configure: semantic must be an object"@)
    } else {
        match (
            semantic_text(value, "backend"@),
            semantic_text(value, "model"@),
            semantic_text(value, "base_url"@),
            semantic_text(value, "api_key_env"@),
            semantic_number(value, "timeout_ms"@),
            semantic_number(value, "max_batch_size"@),
        ) {
            (Err(m), _, _, _, _, _) => Err(m),
            (Ok(Some(name)), _, _, _, _, _) if !backends.contains(name) => Err(
                "configure: unsupported semantic.backend '"@ + name + "'"@,
            ),
            (_, Err(m), _, _, _, _) => Err(m),
            (_, _, Err(m), _, _, _) => Err(m),
            (_, _, Ok(Some(url)), _, _, _) if url.len() > 0 && url_fault is Some => Err(
                url_fault->0,
            ),
            (_, _, _, Err(m), _, _) => Err(m),
            (_, _, _, _, Err(m), _) => Err(m),
            (_, _, _, _, _, Err(m)) => Err(m),
            (_, _, _, _, _, Ok(Some(n))) if n > usize::MAX => Err(
                "configure: semantic.max_batch_size is too large"@,
            ),
            (Ok(backend), Ok(model), Ok(base_url), Ok(key), Ok(timeout), Ok(batch)) => Ok(
                Semantic {
                    backend: given_or(backend, current.backend),
                    model: given_or(model, current.model),
                    base_url: given_or_cleared(base_url, current.base_url),
                    api_key_env: given_or_cleared(key, current.api_key_env),
                    timeout_ms: match timeout {
                        Some(n) => n,
                        None => current.timeout_ms,
                    },
                    max_batch_size: match batch {
                        Some(n) => n as usize,
                        None => current.max_batch_size,
                    },
                },
            ),
        }
    }
}

fn cleared(given: Option<String>, now: &Option<String>) -> (r: Option<String>)
    ensures
        r.deep_view() == given_or_cleared(given.deep_view(), now.deep_view()),
{
    match given {
        Some(s) => {
            if s.as_str().is_empty() {
                None
            } else {
                Some(s)
            }
        },
        None => match now {
            Some(s) => Some(owned(s.as_str())),
            None => None,
        },
    }
}

/// What stands after `semantic` is applied to what stands now.
pub fn parse_semantic_config(
    value: &Json,
    current: &SemanticBackendConfig,
    backends: &Vec<String>,
    url_fault: Option<&str>,
) -> (r: Result<SemanticBackendConfig, String>)
    ensures
        match (
            r,
            semantic_of(
                *value,
                current.deep_view(),
                texts(backends@),
                match url_fault {
                    Some(s) => Some(s@),
                    None => None,
                },
            ),
        ) {
            (Ok(s), Ok(t)) => s.deep_view() == t,
            (Err(e), Err(m)) => e@ == m,
            _ => false,
        },
{
    match value {
        Json::Object(_) => {},
        _ => {
            return Err(owned("configure: semantic must be an object"));
        },
    }
    let backend = match read_semantic_text(value, "backend") {
        Err(e) => {
            return Err(e);
        },
        Ok(Some(name)) => {
            if !contains_text(backends, name.as_str()) {
                return Err(
                    text3("configure: unsupported semantic.backend '", name.as_str(), "'"),
                );
            }
            name
        },
        Ok(None) => owned(current.backend.as_str()),
    };
    let model = match read_semantic_text(value, "model") {
        Err(e) => {
            return Err(e);
        },
        Ok(Some(name)) => name,
        Ok(None) => owned(current.model.as_str()),
    };
    let base_url = match read_semantic_text(value, "base_url") {
        Err(e) => {
            return Err(e);
        },
        Ok(given) => given,
    };
    if let Some(url) = &base_url {
        if !url.as_str().is_empty() {
            if let Some(fault) = url_fault {
                return Err(owned(fault));
            }
        }
    }
    let api_key_env = match read_semantic_text(value, "api_key_env") {
        Err(e) => {
            return Err(e);
        },
        Ok(given) => given,
    };
    let timeout_ms = match read_semantic_number(value, "timeout_ms") {
        Err(e) => {
            return Err(e);
        },
        Ok(Some(n)) => n,
        Ok(None) => current.timeout_ms,
    };
    let max_batch_size = match read_semantic_number(value, "max_batch_size") {
        Err(e) => {
            return Err(e);
        },
        Ok(Some(n)) => {
            if n > usize::MAX as u64 {
                return Err(owned("configure: semantic.max_batch_size is too large"));
            }
            n as usize
        },
        Ok(None) => current.max_batch_size,
    };
    Ok(
        SemanticBackendConfig {
            backend,
            model,
            base_url: cleared(base_url, &current.base_url),
            api_key_env: cleared(api_key_env, &current.api_key_env),
            timeout_ms,
            max_batch_size,
        },
    )
}

/// A storage directory is absolute, and does not lead above itself; any other is refused.
pub proof fn storage_is_at_an_absolute_path(raw: Seq<char>)
    ensures
        storage_dir_of(raw) is Ok ==> raw.len() > 0 && raw[0] == '/' && !normalized(
            path_components(raw),
        ).contains(Comp::Parent) && storage_dir_of(raw)->Ok_0 == rendered(
            normalized(path_components(raw)),
        ),
        storage_dir_of(raw) is Err ==> raw.len() == 0 || raw[0] != '/' || normalized(
            path_components(raw),
        ).contains(Comp::Parent),
{
}

/// A further directory for servers is given as an absolute path without steps up. It is taken with
/// its links followed where it is there, and as it is where it is not there yet; a file, and a path
/// that cannot be resolved, is refused.
pub proof fn further_paths_are_directories(
    item: Json,
    index: int,
    resolved: Seq<(Seq<char>, Resolution)>,
)
    ensures
        match extra_path(item, index, resolved) {
            Ok(p) => item.text() is Some && {
                let raw = item.text()->0;
                &&& raw.len() > 0 && raw[0] == '/'
                &&& !path_components(raw).contains(Comp::Parent)
                &&& match table_get(resolved, raw) {
                    Some(Resolution::Found { canonical, is_dir }) => p == canonical && is_dir
                        && !path_components(canonical).contains(Comp::Parent),
                    Some(Resolution::Failed { .. }) => false,
                    _ => p == raw,
                }
            },
            Err(_) => item.text() is None || {
                let raw = item.text()->0;
                ||| raw.len() == 0
                ||| raw[0] != '/'
                ||| path_components(raw).contains(Comp::Parent)
                ||| match table_get(resolved, raw) {
                    Some(Resolution::Found { canonical, is_dir }) => !is_dir || path_components(
                        canonical,
                    ).contains(Comp::Parent),
                    Some(Resolution::Failed { .. }) => true,
                    _ => false,
                }
            },
        },
{
}

/// The further directories are taken in order, one for each item, and one that is refused refuses
/// them all.
pub proof fn further_paths_are_taken_in_order(
    items: Seq<Json>,
    from: int,
    resolved: Seq<(Seq<char>, Resolution)>,
)
    requires
        0 <= from <= items.len(),
    ensures
        match extra_paths_from(items, from, resolved) {
            Ok(list) => list.len() == items.len() - from && forall|i: int|
                0 <= i < list.len() ==> extra_path(items[from + i], from + i, resolved) == Ok::<
                    Seq<char>,
                    Seq<char>,
                >(#[trigger] list[i]),
            Err(m) => exists|i: int|
                from <= i < items.len() && extra_path(#[trigger] items[i], i, resolved) == Err::<
                    Seq<char>,
                    Seq<char>,
                >(m),
        },
    decreases items.len() - from,
{
    if from < items.len() {
        further_paths_are_taken_in_order(items, from + 1, resolved);
        match extra_paths_from(items, from, resolved) {
            Ok(list) => {
                let rest = extra_paths_from(items, from + 1, resolved)->Ok_0;
                assert forall|i: int| 0 <= i < list.len() implies extra_path(
                    items[from + i],
                    from + i,
                    resolved,
                ) == Ok::<Seq<char>, Seq<char>>(#[trigger] list[i]) by {
                    if i > 0 {
                        assert(list[i] == rest[i - 1]);
                    }
                }
            },
            Err(m) => {
                if extra_path(items[from], from, resolved) is Err {
                    assert(extra_path(items[from], from, resolved) == Err::<Seq<char>, Seq<char>>(m));
                }
            },
        }
    }
}

/// The search by meaning is set member by member: a text is taken without white space around it, an
/// empty address or key clears it, and what is not given stays.
pub proof fn semantic_members_are_set_one_by_one(
    value: Json,
    current: Semantic,
    backends: Seq<Seq<char>>,
    url_fault: Option<Seq<char>>,
)
    requires
        semantic_of(value, current, backends, url_fault) is Ok,
    ensures
        ({
            let r = semantic_of(value, current, backends, url_fault)->Ok_0;
            &&& value.field("backend"@) is None ==> r.backend == current.backend
            &&& value.text_field("backend"@) is Some ==> r.backend == trimmed(
                value.text_field("backend"@)->0,
            ) && backends.contains(r.backend)
            &&& value.field("model"@) is None ==> r.model == current.model
            &&& value.text_field("model"@) is Some ==> r.model == trimmed(
                value.text_field("model"@)->0,
            )
            &&& value.field("base_url"@) is None ==> r.base_url == current.base_url
            &&& value.text_field("base_url"@) is Some ==> {
                let url = trimmed(value.text_field("base_url"@)->0);
                &&& url.len() == 0 ==> r.base_url is None
                &&& url.len() > 0 ==> r.base_url == Some(url) && url_fault is None
            }
            &&& value.field("api_key_env"@) is None ==> r.api_key_env == current.api_key_env
            &&& value.text_field("api_key_env"@) is Some ==> {
                let key = trimmed(value.text_field("api_key_env"@)->0);
                &&& key.len() == 0 ==> r.api_key_env is None
                &&& key.len() > 0 ==> r.api_key_env == Some(key)
            }
            &&& value.field("timeout_ms"@) is None ==> r.timeout_ms == current.timeout_ms
            &&& value.unsigned_field("timeout_ms"@) is Some ==> r.timeout_ms
                == value.unsigned_field("timeout_ms"@)->0
            &&& value.field("max_batch_size"@) is None ==> r.max_batch_size
                == current.max_batch_size
            &&& value.unsigned_field("max_batch_size"@) is Some ==> r.max_batch_size
                == value.unsigned_field("max_batch_size"@)->0
        }),
{
}

} // verus!
