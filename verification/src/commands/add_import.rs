//! Imports of source files.
use vstd::prelude::*;

use crate::commands::ast_search::{list_of, listed};
use crate::commands::refusal::{
    given_text, invalid, need, needed, refuse, refused, reject, verdict, Refusal, RefusalModel,
};
use crate::edit::{
    bytes, char_range, lemma_replaced_bytes, replace_byte_range, replaced,
    replacements_change_their_range,
};
use crate::error::AftError;
use crate::json::Json;
use crate::lang::{detect_language, path_lang, LangId};
use crate::paths::{extension, extension_of};
use crate::text::{owned, text2, text3, texts};

verus! {

/// A request to add an import.
pub struct ImportRequest<'a> {
    pub file: &'a str,
    pub module: &'a str,
    pub names: Vec<String>,
    pub default_import: Option<&'a str>,
    pub type_only: bool,
}

/// The model of an `ImportRequest`.
pub ghost struct ImportAsk {
    pub file: Seq<char>,
    pub module: Seq<char>,
    pub names: Seq<Seq<char>>,
    pub default_import: Option<Seq<char>>,
    pub type_only: bool,
}

impl<'a> DeepView for ImportRequest<'a> {
    type V = ImportAsk;

    open spec fn deep_view(&self) -> ImportAsk {
        ImportAsk {
            file: self.file@,
            module: self.module@,
            names: texts(self.names@),
            default_import: given_text(self.default_import),
            type_only: self.type_only,
        }
    }
}

/// The request that the parameters make.
pub open spec fn import_ask(params: Json) -> Result<ImportAsk, RefusalModel> {
    match (
        needed(params, "add_import"@, "file"@),
        needed(params, "add_import"@, "module"@),
    ) {
        (Err(e), _) => Err(e),
        (_, Err(e)) => Err(e),
        (Ok(file), Ok(module)) => Ok(
            ImportAsk {
                file,
                module,
                names: listed(params, "names"@),
                default_import: params.text_field("default_import"@),
                type_only: params.flag_field("type_only"@) == Some(true),
            },
        ),
    }
}

/// The request that the parameters make.
pub fn read_import_request(params: &Json) -> (r: Result<ImportRequest<'_>, Refusal>)
    ensures
        match (r, import_ask(*params)) {
            (Ok(a), Ok(b)) => a.deep_view() == b,
            (Err(e), Err(m)) => e.deep_view() == m,
            _ => false,
        },
{
    let file = match need(params, "add_import", "file") {
        Ok(s) => s,
        Err(e) => {
            return Err(e);
        },
    };
    let module = match need(params, "add_import", "module") {
        Ok(s) => s,
        Err(e) => {
            return Err(e);
        },
    };
    Ok(
        ImportRequest {
            file,
            module,
            names: list_of(params, "names"),
            default_import: params.get_text("default_import"),
            type_only: match params.get_flag("type_only") {
                Some(b) => b,
                None => false,
            },
        },
    )
}

/// The language of the file that a request names.
pub open spec fn import_lang(file: Seq<char>, exists: bool, supported: bool) -> Result<
    LangId,
    RefusalModel,
> {
    if !exists {
        Err(refused("file_not_found"@, "add_import: file not found: "@ + file))
    } else {
        match path_lang(file) {
            None => Err(
                invalid(
                    "add_import: unsupported file extension: "@ + (match extension_of(file) {
                        Some(ext) => ext,
                        None => "<none>"@,
                    }),
                ),
            ),
            Some(lang) => if supported {
                Ok(lang)
            } else {
                Err(
                    invalid("add_import: import management not yet supported for "@ + lang.label()),
                )
            },
        }
    }
}

/// The language of the file that a request names. `supported` says whether imports of its
/// language can be changed.
pub fn find_import_lang(file: &str, exists: bool, supported: bool) -> (r: Result<LangId, Refusal>)
    ensures
        match (r, import_lang(file@, exists, supported)) {
            (Ok(a), Ok(b)) => a == b,
            (Err(e), Err(m)) => e.deep_view() == m,
            _ => false,
        },
{
    if !exists {
        return Err(refuse("file_not_found", text2("add_import: file not found: ", file)));
    }
    match detect_language(file) {
        None => {
            let m = match extension(file) {
                Some(ext) => text2("add_import: unsupported file extension: ", ext.as_str()),
                None => text2("add_import: unsupported file extension: ", "<none>"),
            };
            Err(reject(m.as_str()))
        },
        Some(lang) => {
            if supported {
                Ok(lang)
            } else {
                Err(
                    reject(
                        text2(
                            "add_import: import management not yet supported for ",
                            lang.name(),
                        ).as_str(),
                    ),
                )
            }
        },
    }
}

/// Where an import goes, and how it is written.
pub struct ImportPlace {
    pub offset: usize,
    pub blank_before: bool,
    pub blank_after: bool,
    /// The import without a line end.
    pub line: String,
    /// The name of the group that the import belongs to.
    pub group: String,
}

/// The imports of a file: its text, and where the import of a request goes, or that it is
/// there already.
pub struct ImportFacts {
    pub source: String,
    pub place: Option<ImportPlace>,
}

/// The text that is put in for an import.
pub open spec fn import_text(place: ImportPlace) -> Seq<char> {
    (if place.blank_before {
        "\n"@
    } else {
        ""@
    }) + place.line@ + "\n"@ + (if place.blank_after {
        "\n"@
    } else {
        ""@
    })
}

/// The text that is put in for an import.
pub fn write_import(place: &ImportPlace) -> (r: String)
    ensures
        r@ == import_text(*place),
{
    let before = if place.blank_before {
        "\n"
    } else {
        ""
    };
    let after = if place.blank_after {
        "\n"
    } else {
        ""
    };
    let mut out = text3(before, place.line.as_str(), "\n");
    out.append(after);
    out
}

/// What became of a request to add an import.
pub enum ImportOutcome {
    /// The file imports it already.
    Present { file: String, module: String },
    Added { file: String, module: String, group: String, new_source: String },
}

/// The model of an `ImportOutcome`.
pub ghost enum Imported {
    Present { file: Seq<char>, module: Seq<char> },
    Added { file: Seq<char>, module: Seq<char>, group: Seq<char>, new_source: Seq<char> },
}

impl DeepView for ImportOutcome {
    type V = Imported;

    open spec fn deep_view(&self) -> Imported {
        match *self {
            ImportOutcome::Present { file, module } => Imported::Present {
                file: file@,
                module: module@,
            },
            ImportOutcome::Added { file, module, group, new_source } => Imported::Added {
                file: file@,
                module: module@,
                group: group@,
                new_source: new_source@,
            },
        }
    }
}

/// What becomes of a request for a file whose imports were read.
pub open spec fn imported(ask: ImportAsk, facts: ImportFacts) -> Result<Imported, RefusalModel> {
    match facts.place {
        None => Ok(Imported::Present { file: ask.file, module: ask.module }),
        Some(place) => match replaced(
            facts.source@,
            place.offset as int,
            place.offset as int,
            import_text(place),
        ) {
            Err(f) => Err(RefusalModel::Error(f)),
            Ok(new_source) => Ok(
                Imported::Added {
                    file: ask.file,
                    module: ask.module,
                    group: place.group@,
                    new_source,
                },
            ),
        },
    }
}

/// What becomes of a request to add an import. `exists` and `supported` tell of the file, and
/// `facts` is what reading its imports gave.
pub open spec fn import_outcome(
    params: Json,
    exists: bool,
    supported: bool,
    facts: Result<ImportFacts, AftError>,
) -> Result<Imported, RefusalModel> {
    match import_ask(params) {
        Err(e) => Err(e),
        Ok(ask) => match import_lang(ask.file, exists, supported) {
            Err(e) => Err(e),
            Ok(_) => match facts {
                Err(e) => Err(RefusalModel::Error(e.deep_view())),
                Ok(facts) => imported(ask, facts),
            },
        },
    }
}

/// What becomes of a request to add an import.
pub fn handle_add_import(
    params: &Json,
    exists: bool,
    supported: bool,
    facts: Result<ImportFacts, AftError>,
) -> (r: Result<ImportOutcome, Refusal>)
    ensures
        verdict(r) == import_outcome(*params, exists, supported, facts),
{
    let ask = match read_import_request(params) {
        Ok(a) => a,
        Err(e) => {
            return Err(e);
        },
    };
    match find_import_lang(ask.file, exists, supported) {
        Ok(_) => {},
        Err(e) => {
            return Err(e);
        },
    }
    let facts = match facts {
        Ok(f) => f,
        Err(e) => {
            return Err(Refusal::Error(e));
        },
    };
    match facts.place {
        None => Ok(
            ImportOutcome::Present { file: owned(ask.file), module: owned(ask.module) },
        ),
        Some(place) => {
            let text = write_import(&place);
            match replace_byte_range(
                facts.source.as_str(),
                place.offset,
                place.offset,
                text.as_str(),
            ) {
                Ok(new_source) => Ok(
                    ImportOutcome::Added {
                        file: owned(ask.file),
                        module: owned(ask.module),
                        group: place.group,
                        new_source,
                    },
                ),
                Err(f) => Err(Refusal::Error(f)),
            }
        },
    }
}

/// An import that is there already is not added again.
pub proof fn present_import_changes_nothing(ask: ImportAsk, facts: ImportFacts)
    requires
        facts.place is None,
    ensures
        imported(ask, facts) == Ok::<Imported, RefusalModel>(
            Imported::Present { file: ask.file, module: ask.module },
        ),
{
}

/// An added import stands where it was to go, and nothing else of the text changes.
pub proof fn import_keeps_the_rest(ask: ImportAsk, facts: ImportFacts)
    requires
        facts.place is Some,
        imported(ask, facts) is Ok,
    ensures
        ({
            let at = facts.place->0.offset as int;
            let b = bytes(facts.source@);
            bytes(imported(ask, facts)->Ok_0->new_source) == b.subrange(0, at) + bytes(
                import_text(facts.place->0),
            ) + b.subrange(at, b.len() as int)
        }),
{
    let place = facts.place->0;
    lemma_replaced_bytes(
        facts.source@,
        place.offset as int,
        place.offset as int,
        import_text(place),
    );
}

/// An import is put in as a line of its own, with an empty line before it and behind it where
/// its place asks for one, and the answer tells the file, the module and the group.
pub proof fn imports_are_lines_of_their_own(ask: ImportAsk, facts: ImportFacts)
    requires
        facts.place is Some,
        char_range(
            facts.source@,
            facts.place->0.offset as int,
            facts.place->0.offset as int,
        ),
    ensures
        ({
            let place = facts.place->0;
            let at = place.offset as int;
            let b = bytes(facts.source@);
            let line = place.line@.push('\n');
            let text = if place.blank_before && place.blank_after {
                (seq!['\n'] + line).push('\n')
            } else if place.blank_before {
                seq!['\n'] + line
            } else if place.blank_after {
                line.push('\n')
            } else {
                line
            };
            match imported(ask, facts) {
                Ok(Imported::Added { file, module, group, new_source }) => file == ask.file
                    && module == ask.module && group == place.group@ && bytes(new_source)
                    == b.subrange(0, at) + bytes(text) + b.subrange(at, b.len() as int),
                _ => false,
            }
        }),
{
    let place = facts.place->0;
    let at = place.offset as int;
    let line = place.line@.push('\n');
    let text = if place.blank_before && place.blank_after {
        (seq!['\n'] + line).push('\n')
    } else if place.blank_before {
        seq!['\n'] + line
    } else if place.blank_after {
        line.push('\n')
    } else {
        line
    };
    reveal_strlit("\n");
    reveal_strlit("");
    assert("\n"@ =~= seq!['\n']);
    assert(""@ =~= Seq::<char>::empty());
    assert(import_text(place) =~= text);
    replacements_change_their_range(facts.source@, at, at, text);
}

/// A request names its file and its module, and is refused where one is missing; the names, the
/// default and whether types alone are meant are taken as they are given.
pub proof fn import_requests_are_taken_as_written(params: Json)
    ensures
        match import_ask(params) {
            Ok(ask) => params.text_field("file"@) == Some(ask.file) && params.text_field(
                "module"@,
            ) == Some(ask.module) && ask.names == listed(params, "names"@) && ask.default_import
                == params.text_field("default_import"@) && (ask.type_only <==> params.flag_field(
                "type_only"@,
            ) == Some(true)),
            Err(_) => params.text_field("file"@) is None || params.text_field("module"@) is None,
        },
{
}

/// A file that is not there, that is in no language by its name, or in one whose imports are not
/// handled is refused; any other is taken in its language.
pub proof fn imports_are_for_files_that_can_have_them(
    file: Seq<char>,
    exists: bool,
    supported: bool,
)
    ensures
        match import_lang(file, exists, supported) {
            Ok(lang) => exists && supported && path_lang(file) == Some(lang),
            Err(_) => path_lang(file) is None || !supported || (!exists),
        },
{
}

/// A request is answered by what its file holds, once the request, the file and its imports could be
/// read; what is wrong with the request comes before what is wrong with the file.
pub proof fn import_requests_are_answered_of_their_file(
    params: Json,
    there: bool,
    supported: bool,
    facts: Result<ImportFacts, AftError>,
)
    ensures
        match import_outcome(params, there, supported, facts) {
            Ok(r) => import_ask(params) is Ok && import_lang(
                import_ask(params)->Ok_0.file,
                there,
                supported,
            ) is Ok && facts is Ok && imported(import_ask(params)->Ok_0, facts->Ok_0) == Ok::<
                Imported,
                RefusalModel,
            >(r),
            Err(e) => {
                ||| import_ask(params) == Err::<ImportAsk, RefusalModel>(e)
                ||| import_ask(params) is Ok && import_lang(
                    import_ask(params)->Ok_0.file,
                    there,
                    supported,
                ) == Err::<LangId, RefusalModel>(e)
                ||| facts is Err && e == RefusalModel::Error((facts->Err_0).deep_view())
                ||| facts is Ok && import_ask(params) is Ok && imported(
                    import_ask(params)->Ok_0,
                    facts->Ok_0,
                ) == Err::<Imported, RefusalModel>(e)
            },
        },
{
}

} // verus!
