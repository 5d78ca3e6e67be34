//! Several edits of one file at once.
use vstd::prelude::*;
use vstd::utf8::{
    decode_utf8_encode_utf8, encode_utf8_valid_utf8, is_char_boundary,
    is_char_boundary_iff_not_is_continuation_byte, is_char_boundary_start_end_of_seq,
    is_continuation_byte, valid_utf8, valid_utf8_concat, valid_utf8_split,
};

use crate::commands::refusal::{
    invalid, list_verdict, refuse, refused, reject, text_verdict, verdict, Refusal, RefusalModel,
};
use crate::commands::target::{read_target, readable, Target};
use crate::edit::{
    bytes, char_range, line_offset, offset_of_line, replace_byte_range, replaced,
    replacements_change_their_range, spliced, LINE_FEED,
};
use crate::json::Json;
use crate::models::{group_models, models};
use crate::order::{inserted, lemma_sorted_permutes, sort_list, sorted, Ranked};
use crate::text::{
    chars_of, decimal, decimal_text, lines, lines_of, owned, text3, text4, text5, texts,
};

verus! {

/// Where a text was found in a source.
pub struct Match {
    pub byte_start: usize,
    pub byte_len: usize,
}

impl DeepView for Match {
    type V = (int, int);

    open spec fn deep_view(&self) -> (int, int) {
        (self.byte_start as int, self.byte_len as int)
    }
}

/// An edit by offsets into the source.
#[derive(Debug)]
pub struct ResolvedEdit {
    pub byte_start: usize,
    pub byte_end: usize,
    pub replacement: String,
}

/// The model of a `ResolvedEdit`.
#[verifier::ext_equal]
pub ghost struct EditModel {
    pub start: int,
    pub end: int,
    pub text: Seq<char>,
}

impl DeepView for ResolvedEdit {
    type V = EditModel;

    open spec fn deep_view(&self) -> EditModel {
        EditModel {
            start: self.byte_start as int,
            end: self.byte_end as int,
            text: self.replacement@,
        }
    }
}

/// The start of a message about the edit at an index.
pub open spec fn edit_prefix(index: nat) -> Seq<char> {
    "batch: edit["@ + decimal(index) + "] "@
}

fn edit_message(index: usize) -> (r: String)
    ensures
        r@ == edit_prefix(index as nat),
{
    text3("batch: edit[", decimal_text(index as u64).as_str(), "] ")
}

/// A refusal of an edit of a request.
pub open spec fn edit_invalid(index: nat, rest: Seq<char>) -> RefusalModel {
    invalid(edit_prefix(index) + rest)
}

/// A refusal of an edit that does not fit the file.
pub open spec fn edit_failed(index: nat, rest: Seq<char>) -> RefusalModel {
    refused("batch_edit_failed"@, edit_prefix(index) + rest)
}

fn invalid_edit(index: usize, rest: &str) -> (r: Refusal)
    ensures
        r.deep_view() == edit_invalid(index as nat, rest@),
{
    let mut m = edit_message(index);
    m.append(rest);
    reject(m.as_str())
}

fn failed_edit(index: usize, rest: &str) -> (r: Refusal)
    ensures
        r.deep_view() == edit_failed(index as nat, rest@),
{
    let mut m = edit_message(index);
    m.append(rest);
    refuse("batch_edit_failed", m)
}

/// The text that an edit looks for, under its present or its former name.
pub open spec fn wanted_text(edit: Json) -> Option<Seq<char>> {
    match edit.field("match"@) {
        Some(v) => v.text(),
        None => edit.text_field("oldString"@),
    }
}

/// The text that an edit puts in the place of what it looks for.
pub open spec fn given_text(edit: Json) -> Seq<char> {
    let given = match edit.field("replacement"@) {
        Some(v) => v.text(),
        None => edit.text_field("newString"@),
    };
    match given {
        Some(s) => s,
        None => Seq::empty(),
    }
}

/// The text that an edit looks for.
pub fn edit_target(edit: &Json) -> (r: Option<&str>)
    ensures
        match r {
            Some(s) => wanted_text(*edit) == Some(s@),
            None => wanted_text(*edit) is None,
        },
{
    match edit.get("match") {
        Some(v) => v.as_text(),
        None => edit.get_text("oldString"),
    }
}

fn edit_replacement(edit: &Json) -> (r: String)
    ensures
        r@ == given_text(*edit),
{
    let given = match edit.get("replacement") {
        Some(v) => v.as_text(),
        None => edit.get_text("newString"),
    };
    match given {
        Some(s) => owned(s),
        None => String::new(),
    }
}

/// The edit of one match.
pub open spec fn match_edit(m: (int, int), text: Seq<char>) -> EditModel {
    EditModel { start: m.0, end: m.0 + m.1, text }
}

/// The edit that replaces a text, given where the text was found: its only occurrence,
/// or the one that the edit selects.
pub open spec fn text_edit(edit: Json, wanted: Seq<char>, index: nat, found: Seq<(int, int)>) -> Result<
    EditModel,
    RefusalModel,
> {
    if found.len() == 0 {
        Err(edit_failed(index, "match '"@ + wanted + "' not found in file"@))
    } else if found.len() > 1 {
        match edit.unsigned_field("occurrence"@) {
            Some(k) => if k >= found.len() {
                Err(
                    edit_failed(
                        index,
                        "occurrence "@ + decimal(k as nat) + " out of range (found "@ + decimal(
                            found.len(),
                        ) + " occurrences)"@,
                    ),
                )
            } else {
                Ok(match_edit(found[k as int], given_text(edit)))
            },
            None => Err(
                edit_failed(
                    index,
                    "match '"@ + wanted + "' is ambiguous ("@ + decimal(found.len())
                        + " occurrences, expected 1). Use 'occurrence' field (0-indexed) to select which one."@,
                ),
            ),
        }
    } else {
        Ok(match_edit(found[0], given_text(edit)))
    }
}

/// Whether a text ends with a line feed.
pub open spec fn ends_line(s: Seq<char>) -> bool {
    s.len() > 0 && s.last() == '\n'
}

/// A text that ends with a line feed.
pub open spec fn with_line_end(s: Seq<char>) -> Seq<char> {
    if ends_line(s) {
        s
    } else {
        s.push('\n')
    }
}

/// What is appended to a source: on a line of its own, ended by a line feed.
pub open spec fn appended(source: Seq<char>, content: Seq<char>) -> Seq<char> {
    let own_line = if !ends_line(source) && !(content.len() > 0 && content[0] == '\n') {
        seq!['\n'] + content
    } else {
        content
    };
    with_line_end(own_line)
}

/// The edit of lines, counted from one and both included. A start one past the last
/// line appends, a start one past the end inserts, and an end past the last line is the
/// last line. A text that replaces whole lines is ended by a line feed where they are;
/// an empty text deletes them.
pub open spec fn line_edit(source: Seq<char>, edit: Json, index: nat) -> Result<
    EditModel,
    RefusalModel,
> {
    let total = lines_of(source).len();
    let content = match edit.text_field("content"@) {
        Some(s) => s,
        None => Seq::empty(),
    };
    match edit.unsigned_field("line_start"@) {
        None => Err(edit_invalid(index, "'line_start' must be a positive integer (1-based)"@)),
        Some(first) => if first == 0 {
            Err(edit_invalid(index, "'line_start' must be >= 1 (1-based)"@))
        } else {
            match edit.unsigned_field("line_end"@) {
                None => Err(
                    edit_invalid(index, "'line_end' must be a positive integer (1-based)"@),
                ),
                Some(last) => if last == 0 {
                    Err(edit_invalid(index, "'line_end' must be >= 1 (1-based)"@))
                } else if first - 1 > total {
                    Err(
                        edit_failed(
                            index,
                            "line_start "@ + decimal(first as nat) + " out of range (file has "@
                                + decimal(total) + " lines)"@,
                        ),
                    )
                } else if first - 1 == total {
                    let end = bytes(source).len() as int;
                    Ok(EditModel { start: end, end, text: appended(source, content) })
                } else if first > last + 1 {
                    Err(
                        edit_invalid(
                            index,
                            "line_start "@ + decimal(first as nat) + " > line_end "@ + decimal(
                                last as nat,
                            ),
                        ),
                    )
                } else if first == last + 1 {
                    let at = line_offset(bytes(source), 0, (first - 1) as nat);
                    Ok(EditModel { start: at, end: at, text: with_line_end(content) })
                } else {
                    let end_line = if last > total {
                        total
                    } else {
                        last as nat
                    };
                    let end = line_offset(bytes(source), 0, end_line);
                    let whole = end > 0 && bytes(source)[end - 1] == LINE_FEED;
                    Ok(
                        EditModel {
                            start: line_offset(bytes(source), 0, (first - 1) as nat),
                            end,
                            text: if content.len() > 0 && whole {
                                with_line_end(content)
                            } else {
                                content
                            },
                        },
                    )
                },
            }
        },
    }
}

/// The edit that an item of a request stands for, given where the text that it looks
/// for was found.
pub open spec fn resolved(source: Seq<char>, edit: Json, index: nat, found: Seq<(int, int)>) -> Result<
    EditModel,
    RefusalModel,
> {
    match wanted_text(edit) {
        Some(wanted) => text_edit(edit, wanted, index, found),
        None => if edit.field("line_start"@) is Some {
            line_edit(source, edit, index)
        } else {
            Err(edit_invalid(index, "must have either 'match' or 'line_start'/'line_end'"@))
        },
    }
}

fn text_ends_line(s: &str) -> (r: bool)
    ensures
        r == ends_line(s@),
{
    let c = chars_of(s);
    c.len() > 0 && c[c.len() - 1] == '\n'
}

fn end_line(s: String) -> (r: String)
    ensures
        r@ == with_line_end(s@),
{
    let mut s = s;
    if !text_ends_line(s.as_str()) {
        s.push('\n');
    }
    s
}

fn resolve_text_edit(
    edit: &Json,
    wanted: &str,
    index: usize,
    found: &Vec<Match>,
) -> (r: Result<ResolvedEdit, Refusal>)
    requires
        forall|i: int|
            0 <= i < found@.len() ==> #[trigger] found@[i].byte_start + found@[i].byte_len
                <= usize::MAX,
    ensures
        verdict(r) == text_edit(*edit, wanted@, index as nat, models(found@)),
{
    let ghost all = models(found@);
    assert(all.len() == found@.len());
    if found.len() == 0 {
        return Err(
            failed_edit(
                index,
                text3("match '", wanted, "' not found in file").as_str(),
            ),
        );
    }
    if found.len() > 1 {
        return match edit.get_unsigned("occurrence") {
            Some(k) => {
                if k >= found.len() as u64 {
                    Err(
                        failed_edit(
                            index,
                            text5(
                                "occurrence ",
                                decimal_text(k).as_str(),
                                " out of range (found ",
                                decimal_text(found.len() as u64).as_str(),
                                " occurrences)",
                            ).as_str(),
                        ),
                    )
                } else {
                    let m = &found[k as usize];
                    assert(all[k as int] == m.deep_view());
                    Ok(
                        ResolvedEdit {
                            byte_start: m.byte_start,
                            byte_end: m.byte_start + m.byte_len,
                            replacement: edit_replacement(edit),
                        },
                    )
                }
            },
            None => Err(
                failed_edit(
                    index,
                    text5(
                        "match '",
                        wanted,
                        "' is ambiguous (",
                        decimal_text(found.len() as u64).as_str(),
                        " occurrences, expected 1). Use 'occurrence' field (0-indexed) to select which one.",
                    ).as_str(),
                ),
            ),
        };
    }
    let m = &found[0];
    assert(all[0] == m.deep_view());
    Ok(
        ResolvedEdit {
            byte_start: m.byte_start,
            byte_end: m.byte_start + m.byte_len,
            replacement: edit_replacement(edit),
        },
    )
}

fn resolve_line_edit(source: &str, edit: &Json, index: usize) -> (r: Result<ResolvedEdit, Refusal>)
    ensures
        verdict(r) == line_edit(source@, *edit, index as nat),
{
    let first = match edit.get_unsigned("line_start") {
        Some(n) => n,
        None => {
            return Err(
                invalid_edit(index, "'line_start' must be a positive integer (1-based)"),
            );
        },
    };
    if first == 0 {
        return Err(invalid_edit(index, "'line_start' must be >= 1 (1-based)"));
    }
    let last = match edit.get_unsigned("line_end") {
        Some(n) => n,
        None => {
            return Err(invalid_edit(index, "'line_end' must be a positive integer (1-based)"));
        },
    };
    if last == 0 {
        return Err(invalid_edit(index, "'line_end' must be >= 1 (1-based)"));
    }
    let content = match edit.get_text("content") {
        Some(s) => owned(s),
        None => String::new(),
    };
    let all = lines(source);
    let total: u64 = all.len() as u64;
    assert(texts(all@).len() == total);
    if first - 1 > total {
        return Err(
            failed_edit(
                index,
                text5(
                    "line_start ",
                    decimal_text(first).as_str(),
                    " out of range (file has ",
                    decimal_text(total).as_str(),
                    " lines)",
                ).as_str(),
            ),
        );
    }
    if first - 1 == total {
        let end: usize = source.as_bytes().len();
        let c = chars_of(content.as_str());
        let own_line = if !text_ends_line(source) && !(c.len() > 0 && c[0] == '\n') {
            let mut s = String::new();
            s.push('\n');
            s.append(content.as_str());
            assert(s@ =~= seq!['\n'] + content@);
            s
        } else {
            content
        };
        return Ok(
            ResolvedEdit { byte_start: end, byte_end: end, replacement: end_line(own_line) },
        );
    }
    if first - 1 > last {
        return Err(
            invalid_edit(
                index,
                text4(
                    "line_start ",
                    decimal_text(first).as_str(),
                    " > line_end ",
                    decimal_text(last).as_str(),
                ).as_str(),
            ),
        );
    }
    let start = offset_of_line(source, (first - 1) as usize);
    if first - 1 == last {
        return Ok(
            ResolvedEdit { byte_start: start, byte_end: start, replacement: end_line(content) },
        );
    }
    let end_at: usize = if last > total {
        all.len()
    } else {
        last as usize
    };
    let end = offset_of_line(source, end_at);
    let b = source.as_bytes();
    let whole = end > 0 && b[end - 1] == LINE_FEED;
    let replacement = if !content.as_str().is_empty() && whole {
        end_line(content)
    } else {
        content
    };
    Ok(ResolvedEdit { byte_start: start, byte_end: end, replacement })
}

/// The edit that an item of a request stands for, given where the text that it looks
/// for was found.
pub fn resolve_edit(source: &str, edit: &Json, index: usize, found: &Vec<Match>) -> (r: Result<
    ResolvedEdit,
    Refusal,
>)
    requires
        forall|i: int|
            0 <= i < found@.len() ==> #[trigger] found@[i].byte_start + found@[i].byte_len
                <= usize::MAX,
    ensures
        verdict(r) == resolved(source@, *edit, index as nat, models(found@)),
{
    match edit_target(edit) {
        Some(wanted) => resolve_text_edit(edit, wanted, index, found),
        None => {
            if edit.get("line_start").is_some() {
                resolve_line_edit(source, edit, index)
            } else {
                Err(
                    invalid_edit(index, "must have either 'match' or 'line_start'/'line_end'"),
                )
            }
        },
    }
}

/// The matches of one edit.
pub struct MatchList {
    pub matches: Vec<Match>,
}

impl DeepView for MatchList {
    type V = Seq<(int, int)>;

    open spec fn deep_view(&self) -> Seq<(int, int)> {
        models(self.matches@)
    }
}

/// The matches of the edit at an index; none where none were looked for.
pub open spec fn found_for(found: Seq<Seq<(int, int)>>, i: int) -> Seq<(int, int)> {
    if 0 <= i < found.len() {
        found[i]
    } else {
        Seq::empty()
    }
}

/// The edits of a request, or the refusal of the first that is none.
pub open spec fn resolved_all(source: Seq<char>, edits: Seq<Json>, found: Seq<Seq<(int, int)>>) -> Result<
    Seq<EditModel>,
    RefusalModel,
>
    decreases edits.len(),
{
    if edits.len() == 0 {
        Ok(Seq::empty())
    } else {
        let i = edits.len() - 1;
        match resolved_all(source, edits.drop_last(), found) {
            Err(e) => Err(e),
            Ok(rest) => match resolved(source, edits.last(), i as nat, found_for(found, i)) {
                Ok(m) => Ok(rest.push(m)),
                Err(e) => Err(e),
            },
        }
    }
}

/// The file and the edits that a request names.
pub open spec fn batch_request(params: Json) -> Result<(Seq<char>, Seq<Json>), RefusalModel> {
    match params.text_field("file"@) {
        None => Err(invalid("batch: missing required param 'file'"@)),
        Some(file) => match params.items_field("edits"@) {
            None => Err(invalid("batch: missing required param 'edits' (expected array)"@)),
            Some(edits) => if edits.len() == 0 {
                Err(invalid("batch: 'edits' array must not be empty"@))
            } else {
                Ok((file, edits))
            },
        },
    }
}

/// The file and the edits that a request names.
pub fn read_batch_request(params: &Json) -> (r: Result<(&str, &Vec<Json>), Refusal>)
    ensures
        match r {
            Ok(p) => batch_request(*params) == Ok::<(Seq<char>, Seq<Json>), RefusalModel>(
                (p.0@, p.1@),
            ),
            Err(e) => batch_request(*params) == Err::<(Seq<char>, Seq<Json>), RefusalModel>(
                e.deep_view(),
            ),
        },
{
    let file = match params.get_text("file") {
        Some(f) => f,
        None => {
            return Err(reject("batch: missing required param 'file'"));
        },
    };
    let edits = match params.get_items("edits") {
        Some(e) => e,
        None => {
            return Err(reject("batch: missing required param 'edits' (expected array)"));
        },
    };
    if edits.len() == 0 {
        return Err(reject("batch: 'edits' array must not be empty"));
    }
    Ok((file, edits))
}

/// What a request makes of a file, before anything is changed: its edits, each by
/// offsets into the text as it is.
pub open spec fn batch_edits(params: Json, target: Target, found: Seq<Seq<(int, int)>>) -> Result<
    Seq<EditModel>,
    RefusalModel,
> {
    match batch_request(params) {
        Err(e) => Err(e),
        Ok(req) => match readable(req.0, target) {
            Err(e) => Err(e),
            Ok(source) => resolved_all(source, req.1, found),
        },
    }
}

/// Whether the offsets of all matches can be added up.
pub open spec fn matches_fit(found: Seq<MatchList>) -> bool {
    forall|i: int, k: int|
        0 <= i < found.len() && 0 <= k < found[i].matches@.len() ==> (
        #[trigger] found[i].matches@[k]).byte_start + found[i].matches@[k].byte_len <= usize::MAX
}

fn resolve_all(source: &str, edits: &Vec<Json>, found: &Vec<MatchList>) -> (r: Result<
    Vec<ResolvedEdit>,
    Refusal,
>)
    requires
        matches_fit(found@),
    ensures
        list_verdict(r) == resolved_all(source@, edits@, models(found@)),
{
    broadcast use group_models;

    let ghost lists = models(found@);
    let none: Vec<Match> = Vec::new();
    let mut out: Vec<ResolvedEdit> = Vec::new();
    let mut i: usize = 0;
    assert(edits@.take(0) =~= Seq::empty());
    while i < edits.len()
        invariant
            i <= edits.len(),
            matches_fit(found@),
            lists == models(found@),
            none@.len() == 0,
            resolved_all(source@, edits@.take(i as int), lists) == Ok::<
                Seq<EditModel>,
                RefusalModel,
            >(models(out@)),
        decreases edits.len() - i,
    {
        proof {
            assert(edits@.take(i + 1).drop_last() =~= edits@.take(i as int));
            assert(edits@.take(i + 1).last() == edits@[i as int]);
            assert(models(none@) =~= Seq::<(int, int)>::empty());
        }
        let list = if i < found.len() {
            assert(lists[i as int] == models(found@[i as int].matches@));
            assert forall|k: int| 0 <= k < found@[i as int].matches@.len() implies (
            #[trigger] found@[i as int].matches@[k]).byte_start + found@[i as int].matches@[k].byte_len
                <= usize::MAX by {}
            &found[i].matches
        } else {
            &none
        };
        assert(models(list@) == found_for(lists, i as int));
        match resolve_edit(source, &edits[i], i, list) {
            Ok(e) => {
                let ghost before = models(out@);
                let ghost m = e.deep_view();
                out.push(e);
                assert(models(out@) == before.push(m));
            },
            Err(e) => {
                proof {
                    lemma_first_error(source@, edits@, lists, i + 1);
                }
                return Err(e);
            },
        }
        i = i + 1;
    }
    assert(edits@.take(edits@.len() as int) =~= edits@);
    Ok(out)
}

proof fn lemma_first_error(source: Seq<char>, edits: Seq<Json>, found: Seq<Seq<(int, int)>>, n: int)
    requires
        0 <= n <= edits.len(),
        resolved_all(source, edits.take(n), found) is Err,
    ensures
        resolved_all(source, edits, found) == resolved_all(source, edits.take(n), found),
    decreases edits.len(),
{
    if n == edits.len() {
        assert(edits.take(n) =~= edits);
    } else {
        assert(edits.drop_last().take(n) =~= edits.take(n));
        lemma_first_error(source, edits.drop_last(), found, n);
    }
}

/// The edits of a request, each by offsets into the text of the file as it is.
pub fn handle_batch(params: &Json, target: &Target, found: &Vec<MatchList>) -> (r: Result<
    Vec<ResolvedEdit>,
    Refusal,
>)
    requires
        matches_fit(found@),
    ensures
        list_verdict(r) == batch_edits(*params, *target, models(found@)),
{
    let (file, edits) = match read_batch_request(params) {
        Ok(p) => p,
        Err(e) => {
            return Err(e);
        },
    };
    let source = match read_target(file, target) {
        Ok(s) => s,
        Err(e) => {
            return Err(e);
        },
    };
    resolve_all(source, edits, found)
}

impl Ranked for ResolvedEdit {
    open spec fn before(a: EditModel, b: EditModel) -> bool {
        a.start > b.start
    }

    fn precedes(&self, other: &ResolvedEdit) -> (r: bool) {
        self.byte_start > other.byte_start
    }
}

/// The refusal of the first of the edits from `from` on that reaches into the one in
/// front of it, where the edits stand from the last in the text to the first.
pub open spec fn overlap(edits: Seq<EditModel>, from: int) -> Option<RefusalModel>
    decreases edits.len() - from,
{
    if from < 1 || from >= edits.len() {
        None
    } else if edits[from].end > edits[from - 1].start {
        Some(overlap_refusal(edits[from], edits[from - 1]))
    } else {
        overlap(edits, from + 1)
    }
}

/// The refusal of two edits of which the lower reaches into the higher.
pub open spec fn overlap_refusal(lower: EditModel, higher: EditModel) -> RefusalModel {
    refused(
        "overlapping_edits"@,
        "batch: edits overlap — edit at bytes ["@ + decimal(lower.start as nat) + ".."@
            + decimal(lower.end as nat) + ") overlaps with edit at bytes ["@ + decimal(
            higher.start as nat,
        ) + ".."@ + decimal(higher.end as nat) + ")"@,
    )
}

/// The text after the edits from `from` on, one after the other.
pub open spec fn applied(s: Seq<char>, edits: Seq<EditModel>, from: int) -> Result<
    Seq<char>,
    RefusalModel,
>
    decreases edits.len() - from,
{
    if from < 0 || from >= edits.len() {
        Ok(s)
    } else {
        let e = edits[from];
        match replaced(s, e.start, e.end, e.text) {
            Ok(t) => applied(t, edits, from + 1),
            Err(f) => Err(RefusalModel::Error(f)),
        }
    }
}

/// The text after all edits: from the last in the text to the first, refused where two
/// of them overlap.
pub open spec fn batch_text(source: Seq<char>, edits: Seq<EditModel>) -> Result<
    Seq<char>,
    RefusalModel,
> {
    let down = sorted::<ResolvedEdit>(edits);
    match overlap(down, 1) {
        Some(e) => Err(e),
        None => applied(source, down, 0),
    }
}

fn refuse_overlap(lower: &ResolvedEdit, higher: &ResolvedEdit) -> (r: Refusal)
    ensures
        r.deep_view() == overlap_refusal(lower.deep_view(), higher.deep_view()),
{
    let mut m = "batch: edits overlap — edit at bytes [".to_owned();
    m.append(decimal_text(lower.byte_start as u64).as_str());
    m.append("..");
    m.append(decimal_text(lower.byte_end as u64).as_str());
    m.append(") overlaps with edit at bytes [");
    m.append(decimal_text(higher.byte_start as u64).as_str());
    m.append("..");
    m.append(decimal_text(higher.byte_end as u64).as_str());
    m.append(")");
    refuse("overlapping_edits", m)
}

/// The text of a file after all edits of a request.
pub fn apply_batch(source: &str, resolved_edits: Vec<ResolvedEdit>) -> (r: Result<String, Refusal>)
    ensures
        text_verdict(r) == batch_text(source@, models(resolved_edits@)),
{
    let ghost all = batch_text(source@, models(resolved_edits@));
    let edits = sort_list(resolved_edits);
    let ghost down = models(edits@);
    let ghost want = overlap(down, 1);
    let mut i: usize = 1;
    while i < edits.len()
        invariant
            1 <= i,
            down == models(edits@),
            overlap(down, 1) == overlap(down, i as int),
            all == batch_text(source@, models(resolved_edits@)),
            want == overlap(down, 1),
            want is Some ==> all == Err::<Seq<char>, RefusalModel>(want->0),
        decreases edits.len() - i,
    {
        assert(down[i as int] == edits@[i as int].deep_view());
        assert(down[i - 1] == edits@[i - 1].deep_view());
        if edits[i].byte_end > edits[i - 1].byte_start {
            return Err(refuse_overlap(&edits[i], &edits[i - 1]));
        }
        i = i + 1;
    }
    let mut content = owned(source);
    let mut k: usize = 0;
    while k < edits.len()
        invariant
            k <= edits.len(),
            down == models(edits@),
            all == applied(source@, down, 0),
            all == batch_text(source@, models(resolved_edits@)),
            applied(source@, down, 0) == applied(content@, down, k as int),
        decreases edits.len() - k,
    {
        let e = &edits[k];
        assert(down[k as int] == e.deep_view());
        match replace_byte_range(
            content.as_str(),
            e.byte_start,
            e.byte_end,
            e.replacement.as_str(),
        ) {
            Ok(t) => {
                content = t;
            },
            Err(f) => {
                return Err(Refusal::Error(f));
            },
        }
        k = k + 1;
    }
    Ok(content)
}

/// Whether edits stand from the last in a text to the first, none reaches into another
/// and each is of whole characters.
pub open spec fn apart_downward(s: Seq<char>, edits: Seq<EditModel>) -> bool {
    &&& forall|i: int|
        0 <= i < edits.len() ==> char_range(s, (#[trigger] edits[i]).start, edits[i].end)
    &&& forall|i: int|
        0 < i < edits.len() ==> (#[trigger] edits[i]).end <= edits[i - 1].start
}

/// Where the untouched start of a text ends once the first `n` edits were made.
pub open spec fn untouched(s: Seq<char>, edits: Seq<EditModel>, n: int) -> int {
    if n <= 0 {
        bytes(s).len() as int
    } else {
        edits[n - 1].start
    }
}

/// The bytes behind the untouched start of a text once the first `n` edits were made:
/// the replacements, with the bytes of the text itself between them.
pub open spec fn woven(s: Seq<char>, edits: Seq<EditModel>, n: int) -> Seq<u8>
    decreases n,
{
    if n <= 0 {
        Seq::empty()
    } else {
        let e = edits[n - 1];
        bytes(e.text) + bytes(s).subrange(e.end, untouched(s, edits, n - 1)) + woven(
            s,
            edits,
            n - 1,
        )
    }
}

/// The end of a valid text is a boundary of it with more valid text behind it, and so is
/// every boundary before it.
proof fn lemma_boundary_kept(x: Seq<u8>, y: Seq<u8>, whole: Seq<u8>, i: int)
    requires
        valid_utf8(x),
        valid_utf8(x + y),
        valid_utf8(whole),
        0 <= i <= x.len() <= whole.len(),
        x == whole.subrange(0, x.len() as int),
        is_char_boundary(whole, i),
        is_char_boundary(whole, x.len() as int),
        y.len() > 0 ==> !is_continuation_byte(y[0]),
    ensures
        is_char_boundary(x + y, i),
{
    let z = x + y;
    is_char_boundary_start_end_of_seq(z);
    if i < z.len() {
        is_char_boundary_iff_not_is_continuation_byte(z, i);
        if i < x.len() {
            assert(z[i] == x[i] && x[i] == whole[i]);
            is_char_boundary_iff_not_is_continuation_byte(whole, i);
        } else {
            assert(z[i] == y[0]);
        }
    }
}

proof fn lemma_first_byte(b: Seq<u8>)
    requires
        valid_utf8(b),
        b.len() > 0,
    ensures
        !is_continuation_byte(b[0]),
{
    is_char_boundary_start_end_of_seq(b);
    is_char_boundary_iff_not_is_continuation_byte(b, 0);
}

proof fn lemma_apply_woven(s: Seq<char>, now: Seq<char>, edits: Seq<EditModel>, k: int)
    requires
        apart_downward(s, edits),
        0 <= k <= edits.len(),
        valid_utf8(woven(s, edits, k)),
        bytes(now) == bytes(s).subrange(0, untouched(s, edits, k)) + woven(s, edits, k),
        0 <= untouched(s, edits, k) <= bytes(s).len(),
        is_char_boundary(bytes(s), untouched(s, edits, k)),
    ensures
        applied(now, edits, k) is Ok,
        bytes(applied(now, edits, k)->Ok_0) == bytes(s).subrange(
            0,
            untouched(s, edits, edits.len() as int),
        ) + woven(s, edits, edits.len() as int),
    decreases edits.len() - k,
{
    if k < edits.len() {
        let b = bytes(s);
        let e = edits[k];
        let c = untouched(s, edits, k);
        let tail = woven(s, edits, k);
        let head = b.subrange(0, c);
        encode_utf8_valid_utf8(s);
        encode_utf8_valid_utf8(now);
        encode_utf8_valid_utf8(e.text);
        assert(char_range(s, e.start, e.end));
        assert(e.end <= c);
        valid_utf8_split(b, c);
        if tail.len() > 0 {
            lemma_first_byte(tail);
        }
        lemma_boundary_kept(head, tail, b, e.start);
        lemma_boundary_kept(head, tail, b, e.end);
        assert(char_range(now, e.start, e.end));
        let next = replaced(now, e.start, e.end, e.text)->Ok_0;
        let spliced_bytes = spliced(now, e.start, e.end, e.text);
        let middle = b.subrange(e.end, c);
        valid_utf8_split(b, e.start);
        valid_utf8_split(b, e.end);
        lemma_middle_valid(b, e.end, c);
        valid_utf8_concat(bytes(e.text), middle);
        valid_utf8_concat(bytes(e.text) + middle, tail);
        assert(woven(s, edits, k + 1) == bytes(e.text) + middle + tail);
        assert(bytes(now).subrange(0, e.start) =~= b.subrange(0, e.start));
        assert(bytes(now).subrange(e.end, bytes(now).len() as int) =~= middle + tail);
        assert(spliced_bytes =~= b.subrange(0, e.start) + woven(s, edits, k + 1));
        valid_utf8_concat(b.subrange(0, e.start), woven(s, edits, k + 1));
        decode_utf8_encode_utf8(spliced_bytes);
        assert(bytes(next) == spliced_bytes);
        lemma_apply_woven(s, next, edits, k + 1);
    }
}

proof fn lemma_middle_valid(b: Seq<u8>, i: int, j: int)
    requires
        valid_utf8(b),
        0 <= i <= j <= b.len(),
        is_char_boundary(b, i),
        is_char_boundary(b, j),
    ensures
        valid_utf8(b.subrange(i, j)),
{
    let head = b.subrange(0, j);
    valid_utf8_split(b, j);
    is_char_boundary_start_end_of_seq(head);
    if i < j {
        is_char_boundary_iff_not_is_continuation_byte(b, i);
        is_char_boundary_iff_not_is_continuation_byte(head, i);
        assert(head[i] == b[i]);
    }
    valid_utf8_split(head, i);
    assert(head.subrange(i, head.len() as int) =~= b.subrange(i, j));
}

/// Edits that do not overlap are made as if at once: made from the last to the first,
/// each replaces the bytes that it was resolved to in the text as it was, every other
/// byte stays, and none of them fails.
pub proof fn batch_edits_are_simultaneous(s: Seq<char>, edits: Seq<EditModel>)
    requires
        apart_downward(s, edits),
    ensures
        applied(s, edits, 0) is Ok,
        bytes(applied(s, edits, 0)->Ok_0) == bytes(s).subrange(
            0,
            untouched(s, edits, edits.len() as int),
        ) + woven(s, edits, edits.len() as int),
{
    encode_utf8_valid_utf8(s);
    is_char_boundary_start_end_of_seq(bytes(s));
    assert(bytes(s).subrange(0, bytes(s).len() as int) + woven(s, edits, 0) =~= bytes(s));
    lemma_apply_woven(s, s, edits, 0);
}

/// Whether an edit looks for a text: under `match`, or under `oldString` where it has no `match`.
pub open spec fn looks_for(edit: Json, wanted: Seq<char>) -> bool {
    edit.text_field("match"@) == Some(wanted) || (edit.field("match"@) is None && edit.text_field(
        "oldString"@,
    ) == Some(wanted))
}

/// Whether an edit gives a text: under `replacement`, or under `newString` where it has no
/// `replacement`.
pub open spec fn gives(edit: Json, text: Seq<char>) -> bool {
    edit.text_field("replacement"@) == Some(text) || (edit.field("replacement"@) is None
        && edit.text_field("newString"@) == Some(text))
}

/// An edit that looks for a text replaces the only place where it was found, or the one that it
/// selects, counted from zero, where there are several. Where there is none, where it selects one
/// that is not there, and where it selects none of several it is refused.
pub proof fn text_edits_replace_what_they_look_for(
    source: Seq<char>,
    edit: Json,
    index: nat,
    found: Seq<(int, int)>,
    wanted: Seq<char>,
    text: Seq<char>,
)
    requires
        looks_for(edit, wanted),
        gives(edit, text),
    ensures
        ({
            let r = resolved(source, edit, index, found);
            let chosen = edit.unsigned_field("occurrence"@);
            &&& found.len() == 1 ==> r is Ok && r->Ok_0.start == found[0].0 && r->Ok_0.end
                == found[0].0 + found[0].1 && r->Ok_0.text == text
            &&& found.len() > 1 && chosen is Some && chosen->0 < found.len() ==> r is Ok
                && r->Ok_0.start == found[chosen->0 as int].0 && r->Ok_0.end
                == found[chosen->0 as int].0 + found[chosen->0 as int].1 && r->Ok_0.text == text
            &&& found.len() == 0 ==> r is Err
            &&& found.len() > 1 && (chosen is None || chosen->0 >= found.len()) ==> r is Err
        }),
{
}

/// An edit of lines, counted from one and both included, takes the place of the bytes from where
/// the first of them starts to where the line behind the last starts. Its text stands there as it
/// is, with a line feed behind it where the lines are ended by one and the text is not; an empty
/// text removes the lines. A last line past the end is the last line of the file.
pub proof fn line_edits_replace_their_lines(source: Seq<char>, edit: Json, index: nat, first: u64, last: u64, text: Seq<char>)
    requires
        edit.field("match"@) is None,
        edit.text_field("oldString"@) is None,
        edit.unsigned_field("line_start"@) == Some(first),
        edit.unsigned_field("line_end"@) == Some(last),
        edit.text_field("content"@) == Some(text),
        1 <= first <= last,
        first <= lines_of(source).len(),
    ensures
        ({
            let b = bytes(source);
            let total = lines_of(source).len();
            let r = resolved(source, edit, index, Seq::empty());
            let e = r->Ok_0;
            &&& r is Ok
            &&& e.start == line_offset(b, 0, (first - 1) as nat)
            &&& last <= total ==> e.end == line_offset(b, 0, last as nat)
            &&& last > total ==> e.end == line_offset(b, 0, total)
            &&& text.len() == 0 ==> e.text.len() == 0
            &&& e.text == text || e.text == text.push('\n')
            &&& e.text != text ==> text.last() != '\n'
            &&& text.len() > 0 && e.end > 0 && b[e.end - 1] == 10 ==> e.text.last() == '\n'
            &&& !(e.end > 0 && b[e.end - 1] == 10) ==> e.text == text
        }),
{
}

/// An edit whose first line comes right behind its last puts its text before that line, as lines
/// of their own, and removes nothing; one whose first line comes right behind the file's last
/// appends to the file. Lines that come to be in no order, and lines past that, are refused.
pub proof fn line_edits_insert_and_append(source: Seq<char>, edit: Json, index: nat, first: u64, last: u64, text: Seq<char>)
    requires
        edit.field("match"@) is None,
        edit.text_field("oldString"@) is None,
        edit.unsigned_field("line_start"@) == Some(first),
        edit.unsigned_field("line_end"@) == Some(last),
        edit.text_field("content"@) == Some(text),
    ensures
        ({
            let b = bytes(source);
            let total = lines_of(source).len();
            let r = resolved(source, edit, index, Seq::empty());
            let e = r->Ok_0;
            &&& first == 0 || last == 0 || first > total + 1 ==> r is Err
            &&& 1 <= last && last + 1 < first <= total ==> r is Err
            &&& 1 <= last && last + 1 == first <= total ==> r is Ok && e.start == line_offset(
                b,
                0,
                last as nat,
            ) && e.end == e.start && e.text.len() > 0 && e.text.last() == '\n' && (e.text == text
                || e.text == text.push('\n'))
            &&& 1 <= last && first == total + 1 ==> r is Ok && e.start == b.len() && e.end
                == b.len() && e.text.len() > 0 && e.text.last() == '\n' && (source.len() > 0
                && source.last() != '\n' ==> e.text[0] == '\n')
        }),
{
}

proof fn lemma_overlap(edits: Seq<EditModel>, from: int)
    requires
        1 <= from,
        overlap(edits, from) is None,
    ensures
        forall|k: int| from <= k < edits.len() ==> (#[trigger] edits[k]).end <= edits[k - 1].start,
    decreases edits.len() - from,
{
    if from < edits.len() {
        lemma_overlap(edits, from + 1);
    }
}

proof fn lemma_downward(edits: Seq<EditModel>, i: int, j: int)
    requires
        0 <= i < j < edits.len(),
        forall|k: int| 1 <= k < edits.len() ==> (#[trigger] edits[k]).end <= edits[k - 1].start,
        forall|k: int| 0 <= k < edits.len() ==> (#[trigger] edits[k]).start <= edits[k].end,
    ensures
        edits[j].end <= edits[i].start,
    decreases j - i,
{
    if i < j - 1 {
        lemma_downward(edits, i, j - 1);
        assert(edits[j].end <= edits[j - 1].start);
    }
}

/// A request with an edit that reaches into another is refused as a whole: nothing of it is done.
pub proof fn overlapping_edits_are_refused(source: Seq<char>, edits: Seq<EditModel>, i: int, j: int)
    requires
        0 <= i < edits.len(),
        0 <= j < edits.len(),
        edits[i].start < edits[j].start < edits[i].end,
        forall|k: int| 0 <= k < edits.len() ==> (#[trigger] edits[k]).start <= edits[k].end,
    ensures
        batch_text(source, edits) is Err,
{
    let down = sorted::<ResolvedEdit>(edits);
    if overlap(down, 1) is None {
        lemma_sorted_permutes::<ResolvedEdit>(edits);
        edits.to_multiset_ensures();
        down.to_multiset_ensures();
        assert(edits.contains(edits[i]));
        assert(edits.contains(edits[j]));
        assert(down.to_multiset().count(edits[i]) > 0);
        assert(down.to_multiset().count(edits[j]) > 0);
        let a = choose|a: int| 0 <= a < down.len() && down[a] == edits[i];
        let b = choose|b: int| 0 <= b < down.len() && down[b] == edits[j];
        assert forall|k: int| 0 <= k < down.len() implies (#[trigger] down[k]).start
            <= down[k].end by {
            assert(down.contains(down[k]));
            assert(down.to_multiset().count(down[k]) > 0);
            assert(edits.contains(down[k]));
            let m = choose|m: int| 0 <= m < edits.len() && edits[m] == down[k];
            assert(edits[m].start <= edits[m].end);
        }
        lemma_overlap(down, 1);
        if a < b {
            lemma_downward(down, a, b);
        } else if b < a {
            lemma_downward(down, b, a);
        }
    }
}

/// A request with a single edit changes the bytes of the edit and no others.
pub proof fn single_edits_change_their_bytes(source: Seq<char>, e: EditModel)
    requires
        char_range(source, e.start, e.end),
    ensures
        batch_text(source, seq![e]) is Ok,
        bytes(batch_text(source, seq![e])->Ok_0) == bytes(source).subrange(0, e.start) + bytes(
            e.text,
        ) + bytes(source).subrange(e.end, bytes(source).len() as int),
{
    reveal_with_fuel(sorted, 3);
    reveal_with_fuel(inserted, 2);
    reveal_with_fuel(applied, 2);
    assert(seq![e].drop_last() =~= Seq::<EditModel>::empty());
    assert(sorted::<ResolvedEdit>(seq![e]) =~= seq![e]);
    replacements_change_their_range(source, e.start, e.end, e.text);
}

/// The edits of a request are resolved one by one against the text as it is, each by its own
/// matches, and the first that is refused refuses the request.
pub proof fn edits_are_resolved_one_by_one(
    source: Seq<char>,
    edits: Seq<Json>,
    found: Seq<Seq<(int, int)>>,
    i: int,
)
    requires
        0 <= i < edits.len(),
        edits.len() <= found.len(),
    ensures
        match resolved_all(source, edits, found) {
            Ok(list) => list.len() == edits.len() && resolved(
                source,
                edits[i],
                i as nat,
                found[i],
            ) == Ok::<EditModel, RefusalModel>(list[i]),
            Err(_) => exists|k: int|
                0 <= k < edits.len() && resolved(
                    source,
                    #[trigger] edits[k],
                    k as nat,
                    found[k],
                ) is Err,
        },
    decreases edits.len(),
{
    let n = edits.len() - 1;
    let less = edits.drop_last();
    if n > 0 {
        edits_are_resolved_one_by_one(source, less, found, if i < n {
            i
        } else {
            0
        });
    }
    lemma_resolved_len(source, less, found);
    match resolved_all(source, edits, found) {
        Ok(list) => {},
        Err(_) => {
            if resolved_all(source, less, found) is Err {
                let k = choose|k: int|
                    0 <= k < less.len() && resolved(
                        source,
                        #[trigger] less[k],
                        k as nat,
                        found[k],
                    ) is Err;
                assert(resolved(source, edits[k], k as nat, found[k]) is Err);
            } else {
                assert(resolved(source, edits[n], n as nat, found[n]) is Err);
            }
        },
    }
}

proof fn lemma_resolved_len(source: Seq<char>, edits: Seq<Json>, found: Seq<Seq<(int, int)>>)
    ensures
        resolved_all(source, edits, found) is Ok ==> resolved_all(source, edits, found)->Ok_0.len()
            == edits.len(),
    decreases edits.len(),
{
    if edits.len() > 0 {
        lemma_resolved_len(source, edits.drop_last(), found);
    }
}

/// A request names a file and at least one edit, and is refused without them; its edits are made to
/// that file, where it can be read.
pub proof fn batches_are_made_to_their_file(
    params: Json,
    target: Target,
    found: Seq<Seq<(int, int)>>,
)
    ensures
        match batch_request(params) {
            Ok(r) => params.text_field("file"@) == Some(r.0) && params.items_field("edits"@) == Some(
                r.1,
            ) && r.1.len() > 0,
            Err(_) => params.text_field("file"@) is None || params.items_field("edits"@) is None
                || (params.items_field("edits"@)->0).len() == 0,
        },
        match batch_edits(params, target, found) {
            Ok(edits) => batch_request(params) is Ok && target.exists && target.content is Ok
                && resolved_all(
                (target.content->Ok_0)@,
                params.items_field("edits"@)->0,
                found,
            ) == Ok::<Seq<EditModel>, RefusalModel>(edits),
            Err(_) => batch_request(params) is Err || !target.exists || target.content is Err
                || resolved_all(
                (target.content->Ok_0)@,
                params.items_field("edits"@)->0,
                found,
            ) is Err,
        },
{
}

} // verus!
