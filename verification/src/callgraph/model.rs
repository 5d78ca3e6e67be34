//! What the call graph holds and answers.
use vstd::prelude::*;

use crate::lang::LangId;
use crate::models::{copy_strings, group_models, models, Entry};
use crate::symbols::SymbolKind;

verus! {

/// An import statement.
#[derive(Debug)]
pub struct ImportStatement {
    /// The module that the statement names.
    pub module: String,
    /// The names that it imports, as the module calls them.
    pub names: Vec<String>,
    /// The local name of the default import.
    pub default_import: Option<String>,
    /// The local name of the whole module.
    pub namespace_import: Option<String>,
    /// The text of the statement.
    pub raw_text: String,
}

/// The model of an `ImportStatement`.
#[verifier::ext_equal]
pub ghost struct ImportModel {
    pub module: Seq<char>,
    pub names: Seq<Seq<char>>,
    pub default_import: Option<Seq<char>>,
    pub namespace_import: Option<Seq<char>>,
    pub raw_text: Seq<char>,
}

impl DeepView for ImportStatement {
    type V = ImportModel;

    open spec fn deep_view(&self) -> ImportModel {
        ImportModel {
            module: self.module@,
            names: models(self.names@),
            default_import: self.default_import.deep_view(),
            namespace_import: self.namespace_import.deep_view(),
            raw_text: self.raw_text@,
        }
    }
}

/// The import statements of a file.
#[derive(Debug)]
pub struct ImportBlock {
    pub imports: Vec<ImportStatement>,
}

/// A copy of an optional string.
pub fn copy_opt(s: &Option<String>) -> (r: Option<String>)
    ensures
        r == *s,
{
    match s {
        Some(t) => Some(t.clone()),
        None => None,
    }
}

impl ImportBlock {
    /// A copy of the statements.
    pub fn copy(&self) -> (r: ImportBlock)
        ensures
            models(r.imports@) == models(self.imports@),
    {
        broadcast use group_models;

        let mut out: Vec<ImportStatement> = Vec::new();
        let mut i: usize = 0;
        while i < self.imports.len()
            invariant
                i <= self.imports.len(),
                models(out@) == models(self.imports@).take(i as int),
            decreases self.imports.len() - i,
        {
            let imp = &self.imports[i];
            let c = ImportStatement {
                module: imp.module.clone(),
                names: copy_strings(&imp.names),
                default_import: copy_opt(&imp.default_import),
                namespace_import: copy_opt(&imp.namespace_import),
                raw_text: imp.raw_text.clone(),
            };
            let ghost before = models(out@);
            let ghost m = c.deep_view();
            out.push(c);
            proof {
                assert(m =~= models(self.imports@)[i as int]);
                assert(models(out@) == before.push(m));
                assert(models(out@) =~= models(self.imports@).take(i + 1));
            }
            i = i + 1;
        }
        assert(models(out@) =~= models(self.imports@));
        ImportBlock { imports: out }
    }
}

/// A call inside a symbol's body.
#[derive(Debug)]
pub struct CallSite {
    /// The name of what is called.
    pub callee_name: String,
    /// The whole expression of what is called.
    pub full_callee: String,
    /// The line of the call, counted from one.
    pub line: u32,
    /// The bytes of the symbol that holds the call.
    pub byte_start: usize,
    pub byte_end: usize,
}

/// The model of a `CallSite`.
#[verifier::ext_equal]
pub ghost struct SiteModel {
    pub callee_name: Seq<char>,
    pub full_callee: Seq<char>,
    pub line: int,
    pub byte_start: int,
    pub byte_end: int,
}

impl DeepView for CallSite {
    type V = SiteModel;

    open spec fn deep_view(&self) -> SiteModel {
        SiteModel {
            callee_name: self.callee_name@,
            full_callee: self.full_callee@,
            line: self.line as int,
            byte_start: self.byte_start as int,
            byte_end: self.byte_end as int,
        }
    }
}

/// What the graph keeps of a symbol.
#[derive(Debug)]
pub struct SymbolMeta {
    pub kind: SymbolKind,
    pub exported: bool,
    pub signature: Option<String>,
}

/// The model of a `SymbolMeta`.
#[verifier::ext_equal]
pub ghost struct MetaModel {
    pub kind: SymbolKind,
    pub exported: bool,
    pub signature: Option<Seq<char>>,
}

impl DeepView for SymbolMeta {
    type V = MetaModel;

    open spec fn deep_view(&self) -> MetaModel {
        MetaModel {
            kind: self.kind,
            exported: self.exported,
            signature: self.signature.deep_view(),
        }
    }
}

/// The calls of a symbol.
#[derive(Debug)]
pub struct CallList {
    pub sites: Vec<CallSite>,
}

impl DeepView for CallList {
    type V = Seq<SiteModel>;

    open spec fn deep_view(&self) -> Seq<SiteModel> {
        models(self.sites@)
    }
}

/// What the graph keeps of a file.
pub struct FileCallData {
    /// The calls in the body of each symbol that makes any.
    pub calls_by_symbol: Vec<Entry<CallList>>,
    /// The names of the exported symbols.
    pub exported_symbols: Vec<String>,
    /// What is known of each symbol.
    pub symbol_metadata: Vec<Entry<SymbolMeta>>,
    /// The import statements.
    pub import_block: ImportBlock,
    /// The language.
    pub lang: LangId,
}

/// The model of a `FileCallData`.
#[verifier::ext_equal]
pub ghost struct FileModel {
    pub calls: Seq<(Seq<char>, Seq<SiteModel>)>,
    pub exported: Seq<Seq<char>>,
    pub metadata: Seq<(Seq<char>, MetaModel)>,
    pub imports: Seq<ImportModel>,
    pub lang: LangId,
}

impl DeepView for FileCallData {
    type V = FileModel;

    open spec fn deep_view(&self) -> FileModel {
        FileModel {
            calls: models(self.calls_by_symbol@),
            exported: models(self.exported_symbols@),
            metadata: models(self.symbol_metadata@),
            imports: models(self.import_block.imports@),
            lang: self.lang,
        }
    }
}

/// Where a call leads.
#[derive(Debug)]
pub enum EdgeResolution {
    /// To a symbol of a file.
    Resolved { file: String, symbol: String },
    /// Nowhere that is known; the name is kept.
    Unresolved { callee_name: String },
}

/// The model of an `EdgeResolution`.
pub ghost enum EdgeModel {
    Resolved { file: Seq<char>, symbol: Seq<char> },
    Unresolved { callee_name: Seq<char> },
}

impl DeepView for EdgeResolution {
    type V = EdgeModel;

    open spec fn deep_view(&self) -> EdgeModel {
        match *self {
            EdgeResolution::Resolved { file, symbol } => EdgeModel::Resolved {
                file: file@,
                symbol: symbol@,
            },
            EdgeResolution::Unresolved { callee_name } => EdgeModel::Unresolved {
                callee_name: callee_name@,
            },
        }
    }
}

/// A place from which a symbol is called.
#[derive(Debug)]
pub struct CallerSite {
    pub caller_file: String,
    pub caller_symbol: String,
    /// The line of the call, counted from one.
    pub line: u32,
    pub col: u32,
    /// Whether imports led from the call to the symbol.
    pub resolved: bool,
}

/// The model of a `CallerSite`.
#[verifier::ext_equal]
pub ghost struct CallerModel {
    pub file: Seq<char>,
    pub symbol: Seq<char>,
    pub line: int,
    pub col: int,
    pub resolved: bool,
}

impl DeepView for CallerSite {
    type V = CallerModel;

    open spec fn deep_view(&self) -> CallerModel {
        CallerModel {
            file: self.caller_file@,
            symbol: self.caller_symbol@,
            line: self.line as int,
            col: self.col as int,
            resolved: self.resolved,
        }
    }
}

impl CallerSite {
    /// A copy of the site.
    pub fn copy(&self) -> (r: CallerSite)
        ensures
            r == *self,
    {
        CallerSite {
            caller_file: self.caller_file.clone(),
            caller_symbol: self.caller_symbol.clone(),
            line: self.line,
            col: self.col,
            resolved: self.resolved,
        }
    }
}

/// A call as seen from what it calls.
pub struct ReverseEdge {
    pub target_file: String,
    pub target_symbol: String,
    pub site: CallerSite,
}

/// The model of a `ReverseEdge`.
#[verifier::ext_equal]
pub ghost struct ReverseModel {
    pub target_file: Seq<char>,
    pub target_symbol: Seq<char>,
    pub site: CallerModel,
}

impl DeepView for ReverseEdge {
    type V = ReverseModel;

    open spec fn deep_view(&self) -> ReverseModel {
        ReverseModel {
            target_file: self.target_file@,
            target_symbol: self.target_symbol@,
            site: self.site.deep_view(),
        }
    }
}

/// One caller in a file.
#[derive(Debug)]
pub struct CallerEntry {
    pub symbol: String,
    pub line: u32,
}

impl DeepView for CallerEntry {
    type V = (Seq<char>, int);

    open spec fn deep_view(&self) -> (Seq<char>, int) {
        (self.symbol@, self.line as int)
    }
}

/// The callers in one file.
#[derive(Debug)]
pub struct CallerGroup {
    /// The path, seen from the project root.
    pub file: String,
    pub callers: Vec<CallerEntry>,
}

impl DeepView for CallerGroup {
    type V = (Seq<char>, Seq<(Seq<char>, int)>);

    open spec fn deep_view(&self) -> (Seq<char>, Seq<(Seq<char>, int)>) {
        (self.file@, models(self.callers@))
    }
}

/// The answer to a question for callers.
#[derive(Debug)]
pub struct CallersResult {
    pub symbol: String,
    pub file: String,
    pub callers: Vec<CallerGroup>,
    pub total_callers: usize,
    pub scanned_files: usize,
}

/// The model of a `CallersResult`.
#[verifier::ext_equal]
pub ghost struct CallersModel {
    pub symbol: Seq<char>,
    pub file: Seq<char>,
    pub callers: Seq<(Seq<char>, Seq<(Seq<char>, int)>)>,
    pub total_callers: int,
    pub scanned_files: int,
}

impl DeepView for CallersResult {
    type V = CallersModel;

    open spec fn deep_view(&self) -> CallersModel {
        CallersModel {
            symbol: self.symbol@,
            file: self.file@,
            callers: models(self.callers@),
            total_callers: self.total_callers as int,
            scanned_files: self.scanned_files as int,
        }
    }
}

/// A symbol and what it calls.
#[derive(Debug)]
pub struct CallTreeNode {
    pub name: String,
    pub file: String,
    pub line: u32,
    pub signature: Option<String>,
    /// Whether the symbol was found.
    pub resolved: bool,
    pub children: Vec<CallTreeNode>,
}

/// The model of a `CallTreeNode`.
#[verifier::ext_equal]
pub ghost struct CallTree {
    pub name: Seq<char>,
    pub file: Seq<char>,
    pub line: int,
    pub signature: Option<Seq<char>>,
    pub resolved: bool,
    pub children: Seq<CallTree>,
}

impl CallTreeNode {
    /// The model of the node.
    pub open spec fn model(self) -> CallTree
        decreases self,
    {
        CallTree {
            name: self.name@,
            file: self.file@,
            line: self.line as int,
            signature: self.signature.deep_view(),
            resolved: self.resolved,
            children: Seq::new(
                self.children@.len(),
                |i: int|
                    if 0 <= i < self.children@.len() {
                        self.children@[i].model()
                    } else {
                        arbitrary()
                    },
            ),
        }
    }
}

impl DeepView for CallTreeNode {
    type V = CallTree;

    open spec fn deep_view(&self) -> CallTree {
        self.model()
    }
}

/// The children of a node's model are the models of its children.
pub broadcast proof fn lemma_call_children(n: CallTreeNode)
    ensures
        (#[trigger] n.deep_view()).children == models(n.children@),
{
    assert(n.deep_view().children =~= models(n.children@));
}

/// A step on the way from an entry point.
#[derive(Debug)]
pub struct TraceHop {
    pub symbol: String,
    pub file: String,
    pub line: u32,
    pub signature: Option<String>,
    pub is_entry_point: bool,
}

/// The model of a `TraceHop`.
#[verifier::ext_equal]
pub ghost struct HopModel {
    pub symbol: Seq<char>,
    pub file: Seq<char>,
    pub line: int,
    pub signature: Option<Seq<char>>,
    pub is_entry_point: bool,
}

impl DeepView for TraceHop {
    type V = HopModel;

    open spec fn deep_view(&self) -> HopModel {
        HopModel {
            symbol: self.symbol@,
            file: self.file@,
            line: self.line as int,
            signature: self.signature.deep_view(),
            is_entry_point: self.is_entry_point,
        }
    }
}

/// A way from an entry point, which comes first, to the target, which comes last.
#[derive(Debug)]
pub struct TracePath {
    pub hops: Vec<TraceHop>,
}

impl DeepView for TracePath {
    type V = Seq<HopModel>;

    open spec fn deep_view(&self) -> Seq<HopModel> {
        models(self.hops@)
    }
}

/// The answer to a question for ways from entry points.
#[derive(Debug)]
pub struct TraceToResult {
    pub target_symbol: String,
    pub target_file: String,
    pub paths: Vec<TracePath>,
    pub total_paths: usize,
    /// The number of different entry points that the ways start from.
    pub entry_points_found: usize,
    /// Whether the search stopped anywhere because of its depth.
    pub max_depth_reached: bool,
    /// The number of dead ends.
    pub truncated_paths: usize,
}

/// The model of a `TraceToResult`.
#[verifier::ext_equal]
pub ghost struct TraceModel {
    pub target_symbol: Seq<char>,
    pub target_file: Seq<char>,
    pub paths: Seq<Seq<HopModel>>,
    pub total_paths: int,
    pub entry_points_found: int,
    pub max_depth_reached: bool,
    pub truncated_paths: int,
}

impl DeepView for TraceToResult {
    type V = TraceModel;

    open spec fn deep_view(&self) -> TraceModel {
        TraceModel {
            target_symbol: self.target_symbol@,
            target_file: self.target_file@,
            paths: models(self.paths@),
            total_paths: self.total_paths as int,
            entry_points_found: self.entry_points_found as int,
            max_depth_reached: self.max_depth_reached,
            truncated_paths: self.truncated_paths as int,
        }
    }
}

/// A call that a change to a symbol affects.
#[derive(Debug)]
pub struct ImpactCaller {
    pub caller_symbol: String,
    pub caller_file: String,
    pub line: u32,
    pub signature: Option<String>,
    pub is_entry_point: bool,
    /// The source line of the call, without white space around it.
    pub call_expression: Option<String>,
    pub parameters: Vec<String>,
}

/// The model of an `ImpactCaller`.
#[verifier::ext_equal]
pub ghost struct AffectedModel {
    pub caller_symbol: Seq<char>,
    pub caller_file: Seq<char>,
    pub line: int,
    pub signature: Option<Seq<char>>,
    pub is_entry_point: bool,
    pub call_expression: Option<Seq<char>>,
    pub parameters: Seq<Seq<char>>,
}

impl DeepView for ImpactCaller {
    type V = AffectedModel;

    open spec fn deep_view(&self) -> AffectedModel {
        AffectedModel {
            caller_symbol: self.caller_symbol@,
            caller_file: self.caller_file@,
            line: self.line as int,
            signature: self.signature.deep_view(),
            is_entry_point: self.is_entry_point,
            call_expression: self.call_expression.deep_view(),
            parameters: models(self.parameters@),
        }
    }
}

/// The answer to a question for what a change affects.
#[derive(Debug)]
pub struct ImpactResult {
    pub symbol: String,
    pub file: String,
    pub signature: Option<String>,
    pub parameters: Vec<String>,
    pub total_affected: usize,
    pub affected_files: usize,
    pub callers: Vec<ImpactCaller>,
}

/// The model of an `ImpactResult`.
#[verifier::ext_equal]
pub ghost struct ImpactModel {
    pub symbol: Seq<char>,
    pub file: Seq<char>,
    pub signature: Option<Seq<char>>,
    pub parameters: Seq<Seq<char>>,
    pub total_affected: int,
    pub affected_files: int,
    pub callers: Seq<AffectedModel>,
}

impl DeepView for ImpactResult {
    type V = ImpactModel;

    open spec fn deep_view(&self) -> ImpactModel {
        ImpactModel {
            symbol: self.symbol@,
            file: self.file@,
            signature: self.signature.deep_view(),
            parameters: models(self.parameters@),
            total_affected: self.total_affected as int,
            affected_files: self.affected_files as int,
            callers: models(self.callers@),
        }
    }
}

/// A step of a value through assignments and parameters.
#[derive(Debug)]
pub struct DataFlowHop {
    pub file: String,
    pub symbol: String,
    pub variable: String,
    pub line: u32,
    /// `assignment` or `parameter`.
    pub flow_type: String,
    /// Whether the step is a guess.
    pub approximate: bool,
}

/// The model of a `DataFlowHop`.
#[verifier::ext_equal]
pub ghost struct FlowModel {
    pub file: Seq<char>,
    pub symbol: Seq<char>,
    pub variable: Seq<char>,
    pub line: int,
    pub flow_type: Seq<char>,
    pub approximate: bool,
}

impl DeepView for DataFlowHop {
    type V = FlowModel;

    open spec fn deep_view(&self) -> FlowModel {
        FlowModel {
            file: self.file@,
            symbol: self.symbol@,
            variable: self.variable@,
            line: self.line as int,
            flow_type: self.flow_type@,
            approximate: self.approximate,
        }
    }
}

/// The answer to a question for how a value flows.
#[derive(Debug)]
pub struct TraceDataResult {
    pub expression: String,
    pub origin_file: String,
    pub origin_symbol: String,
    pub hops: Vec<DataFlowHop>,
    /// Whether a step was left out because of the depth.
    pub depth_limited: bool,
}

/// The model of a `TraceDataResult`.
#[verifier::ext_equal]
pub ghost struct DataModel {
    pub expression: Seq<char>,
    pub origin_file: Seq<char>,
    pub origin_symbol: Seq<char>,
    pub hops: Seq<FlowModel>,
    pub depth_limited: bool,
}

impl DeepView for TraceDataResult {
    type V = DataModel;

    open spec fn deep_view(&self) -> DataModel {
        DataModel {
            expression: self.expression@,
            origin_file: self.origin_file@,
            origin_symbol: self.origin_symbol@,
            hops: models(self.hops@),
            depth_limited: self.depth_limited,
        }
    }
}

} // verus!
