//! The features on scripts and projects, read from their text.
use m1_features::call_hierarchy::{
    channel_item, incoming, outgoing, script_item, CallGraph, ItemKind,
};
use m1_features::call_hierarchy::prepare as prepare_hierarchy;
use m1_features::code_action::nearest::nearest_enum_member;
use m1_features::code_action::refactor::refactors;
use m1_features::code_action::{
    code_actions, fix_all_lint_action, format_action, CodeAction, CodeActionKind, Diagnostic,
};
use m1_features::code_lens::{code_lens, Argument, CodeLens, ParsedScript};
use m1_features::completion::{assignment_lhs, completions, CompletionItem, CompletionItemKind};
use m1_features::document_symbols::{document_symbols, OutlineKind};
use m1_features::edits::{
    AnyTextEdit, CreateFile, DeleteFile, DeleteOptions, DocumentChangeOperation, DocumentChanges,
    FileOptions, RenameFile, TextDocumentEdit, TextEdit, WorkspaceEdit,
};
use m1_features::eval::{ExprLine, Provenance, TickPolicy, Trace};
use m1_features::folding::{folding_ranges, FoldingRangeKind};
use m1_features::goto::{enum_type_decl_line, goto, goto_local, goto_type_definition};
use m1_features::hover::symbol::{object_markdown, symbol_markdown};
use m1_features::hover::{hover, hover_with_eval, EvalContext};
use m1_features::inlay::{
    inlay_hints, inlay_hints_with_eval, EvalInlayContext, InlayHint, InlayHintKind,
};
use m1_features::intrinsics_render::signature_label;
use m1_features::line_index::{LineIndex, Position, PositionEncoding, Range};
use m1_features::locate::{build_scope, collect_locals, path_at_byte, scope_before, scope_paths};
use m1_features::model::{
    CanMeta, EnumType, Intrinsics, LibraryObject, LoadedProject, Overload, Param, Project, Rate,
    Resolution, Scope, Symbol, SymbolKind, TableAxis, TableMeta, ValueType,
};
use m1_features::paths::{contained_join, file_name};
use m1_features::references::{
    document_highlights, document_highlights_scoped, path_occurrences, project_implementations,
    project_references, references, DocumentHighlightKind, Location, Script,
};
use m1_features::rename::apply::apply_workspace_edit_to;
use m1_features::rename::confirm::annotate_for_confirmation;
use m1_features::rename::file_rename::execute_file_rename;
use m1_features::rename::func::rewrite_trailing_leaf;
use m1_features::rename::group::rewrite_filename_group_segment;
use m1_features::rename::m1prj::{execute_m1prj, prepare_m1prj};
use m1_features::rename::names::{is_valid_identifier, is_valid_symbol_name};
use m1_features::rename::{execute, prepare};
use m1_features::scripts::{gather_project_scripts, Texts};
use m1_features::selection_range::{selection_range, SelectionRange};
use m1_features::semantic_tokens::{
    legend, semantic_tokens, semantic_tokens_range, SemanticToken, TM_DEFINITION, TT_COMMENT,
    TT_KEYWORD, TT_NUMBER, TT_PROPERTY, TT_STRING, TT_VARIABLE,
};
use m1_features::syntax::{Field, Kind, NodeData, SyntaxTree};

const ENC: PositionEncoding = PositionEncoding::Utf16;

// ---------------------------------------------------------------------------
// Reading a script
// ---------------------------------------------------------------------------

#[derive(Clone, Copy, Debug, PartialEq)]
enum Tok {
    Name,
    Number,
    Text,
    Punct,
    Word(Kind),
}

#[derive(Clone, Copy, Debug)]
struct Token {
    tok: Tok,
    start: usize,
    end: usize,
}

fn keyword(word: &str) -> Option<Kind> {
    Some(match word {
        "if" => Kind::If,
        "else" => Kind::Else,
        "when" => Kind::When,
        "is" => Kind::Is,
        "expand" => Kind::Expand,
        "to" => Kind::To,
        "local" => Kind::Local,
        "static" => Kind::Static,
        "and" => Kind::And,
        "or" => Kind::Or,
        "not" => Kind::Not,
        "true" => Kind::True,
        "false" => Kind::False,
        "eq" | "neq" => Kind::Other,
        _ => return None,
    })
}

fn word_end(src: &str, from: usize) -> usize {
    src[from..]
        .char_indices()
        .find(|(_, c)| !(c.is_alphanumeric() || *c == '_'))
        .map(|(i, _)| from + i)
        .unwrap_or(src.len())
}

/// The tokens of a script, and its comments.
fn tokens_of(src: &str) -> (Vec<Token>, Vec<(Kind, usize, usize)>) {
    let mut toks = Vec::new();
    let mut comments = Vec::new();
    let mut i = 0;
    while i < src.len() {
        let c = src[i..].chars().next().unwrap();
        if c.is_whitespace() {
            i += c.len_utf8();
        } else if src[i..].starts_with("//") {
            let end = src[i..].find('\n').map(|k| i + k).unwrap_or(src.len());
            comments.push((Kind::LineComment, i, end));
            i = end;
        } else if src[i..].starts_with("/*") {
            let end = src[i..].find("*/").map(|k| i + k + 2).unwrap_or(src.len());
            comments.push((Kind::BlockComment, i, end));
            i = end;
        } else if c == '"' {
            let end = src[i + 1..].find('"').map(|k| i + k + 2).unwrap_or(src.len());
            toks.push(Token { tok: Tok::Text, start: i, end });
            i = end;
        } else if c.is_ascii_digit() {
            let mut end = i;
            while end < src.len() && (src.as_bytes()[end].is_ascii_digit() || src.as_bytes()[end] == b'.') {
                end += 1;
            }
            toks.push(Token { tok: Tok::Number, start: i, end });
            i = end;
        } else if c.is_alphabetic() || c == '_' {
            let mut end = word_end(src, i);
            if let Some(k) = keyword(&src[i..end]) {
                toks.push(Token { tok: Tok::Word(k), start: i, end });
                i = end;
                continue;
            }
            // A name goes on over blanks to the next word that is no keyword.
            loop {
                let gap = src[end..].bytes().take_while(|b| *b == b' ').count();
                let next = end + gap;
                let more = gap > 0
                    && src[next..].chars().next().is_some_and(|c| c.is_alphanumeric() || c == '_')
                    && keyword(&src[next..word_end(src, next)]).is_none();
                if !more {
                    break;
                }
                end = word_end(src, next);
            }
            toks.push(Token { tok: Tok::Name, start: i, end });
            i = end;
        } else {
            let two = ["==", "!=", "<=", ">=", "&&", "||", "+=", "-=", "*=", "/="];
            let len = two
                .iter()
                .find(|t| src[i..].starts_with(**t))
                .map(|t| t.len())
                .unwrap_or(c.len_utf8());
            toks.push(Token { tok: Tok::Punct, start: i, end: i + len });
            i += len;
        }
    }
    (toks, comments)
}

#[derive(Clone, Debug)]
struct Built {
    kind: Kind,
    start: usize,
    end: usize,
    named: bool,
    field: Option<Field>,
    kids: Vec<Built>,
}

fn inner(kind: Kind, kids: Vec<Built>) -> Built {
    Built {
        kind,
        start: kids[0].start,
        end: kids[kids.len() - 1].end,
        named: true,
        field: None,
        kids,
    }
}

fn part(mut b: Built, f: Field) -> Built {
    b.field = Some(f);
    b
}

struct Reader<'a> {
    src: &'a str,
    toks: Vec<Token>,
    comments: Vec<(Kind, usize, usize)>,
    i: usize,
    c: usize,
    errors: usize,
}

impl<'a> Reader<'a> {
    fn text(&self, k: usize) -> &'a str {
        match self.toks.get(k) {
            Some(t) => &self.src[t.start..t.end],
            None => "",
        }
    }

    fn is(&self, s: &str) -> bool {
        self.text(self.i) == s
    }

    fn leaf(&mut self) -> Built {
        let t = self.toks[self.i];
        self.i += 1;
        let (kind, named) = match t.tok {
            Tok::Name => (Kind::Identifier, true),
            Tok::Number => (Kind::Number, true),
            Tok::Text => (Kind::String, true),
            Tok::Punct => (Kind::Other, false),
            Tok::Word(k) => (k, false),
        };
        Built { kind, start: t.start, end: t.end, named, field: None, kids: Vec::new() }
    }

    fn expect(&mut self, s: &str) -> Option<Built> {
        if self.is(s) {
            Some(self.leaf())
        } else {
            None
        }
    }

    fn name(&mut self) -> Option<Built> {
        match self.toks.get(self.i) {
            Some(t) if t.tok == Tok::Name => Some(self.leaf()),
            _ => None,
        }
    }

    fn primary(&mut self) -> Option<Built> {
        let t = *self.toks.get(self.i)?;
        match t.tok {
            Tok::Name | Tok::Number | Tok::Text => Some(self.leaf()),
            Tok::Word(Kind::True) | Tok::Word(Kind::False) => {
                let l = self.leaf();
                Some(inner(Kind::Boolean, vec![l]))
            }
            Tok::Punct if self.is("(") => {
                let a = self.leaf();
                let e = self.expression()?;
                let z = self.expect(")")?;
                Some(inner(Kind::ParenthesizedExpression, vec![a, e, z]))
            }
            _ => None,
        }
    }

    fn postfix(&mut self) -> Option<Built> {
        let mut e = self.primary()?;
        loop {
            if self.is(".") {
                let dot = self.leaf();
                let p = self.name()?;
                e = inner(
                    Kind::MemberExpression,
                    vec![part(e, Field::Object), dot, part(p, Field::Property)],
                );
            } else if self.is("(") {
                let mut kids = vec![self.leaf()];
                while !self.is(")") {
                    kids.push(self.expression()?);
                    if self.is(",") {
                        kids.push(self.leaf());
                    } else if !self.is(")") {
                        return None;
                    }
                }
                kids.push(self.leaf());
                let args = inner(Kind::Other, kids);
                e = inner(
                    Kind::CallExpression,
                    vec![part(e, Field::Function), part(args, Field::Arguments)],
                );
            } else {
                return Some(e);
            }
        }
    }

    fn unary(&mut self) -> Option<Built> {
        if self.is("not") || self.is("!") || self.is("-") {
            let op = self.leaf();
            let e = self.unary()?;
            return Some(inner(Kind::UnaryExpression, vec![op, e]));
        }
        self.postfix()
    }

    fn binary(&mut self, level: usize) -> Option<Built> {
        let levels: [&[&str]; 5] = [
            &["or", "||"],
            &["and", "&&"],
            &["eq", "neq", "==", "!=", "<", ">", "<=", ">="],
            &["+", "-"],
            &["*", "/", "%"],
        ];
        if level == levels.len() {
            return self.unary();
        }
        let mut e = self.binary(level + 1)?;
        while levels[level].contains(&self.text(self.i)) {
            let op = self.leaf();
            let r = self.binary(level + 1)?;
            e = inner(Kind::BinaryExpression, vec![e, op, r]);
        }
        Some(e)
    }

    fn expression(&mut self) -> Option<Built> {
        let c = self.binary(0)?;
        if !self.is("?") {
            return Some(c);
        }
        let q = self.leaf();
        let a = self.expression()?;
        let colon = self.expect(":")?;
        let b = self.expression()?;
        Some(inner(Kind::TernaryExpression, vec![c, q, a, colon, b]))
    }

    fn comments_before(&mut self, at: usize, out: &mut Vec<Built>) {
        while self.c < self.comments.len() && self.comments[self.c].1 < at {
            let (kind, start, end) = self.comments[self.c];
            self.c += 1;
            out.push(Built { kind, start, end, named: true, field: None, kids: Vec::new() });
        }
    }

    fn block(&mut self) -> Option<Built> {
        let mut kids = vec![self.expect("{")?];
        while !self.is("}") {
            let at = self.toks.get(self.i)?.start;
            self.comments_before(at, &mut kids);
            let s = self.statement_or_error();
            kids.push(s);
        }
        let at = self.toks[self.i].start;
        self.comments_before(at, &mut kids);
        kids.push(self.leaf());
        Some(inner(Kind::Block, kids))
    }

    fn end_of_statement(&mut self, kids: &mut Vec<Built>) {
        if self.is(";") {
            kids.push(self.leaf());
        } else {
            self.errors += 1;
        }
    }

    fn statement(&mut self) -> Option<Built> {
        match self.text(self.i) {
            "local" | "static" => {
                let mut kids = Vec::new();
                if self.is("static") {
                    kids.push(self.leaf());
                }
                kids.push(self.expect("local")?);
                if self.is("<") {
                    let a = self.leaf();
                    let n = self.name()?;
                    let z = self.expect(">")?;
                    kids.push(inner(Kind::TypeAnnotation, vec![a, n, z]));
                }
                let n = self.name()?;
                kids.push(part(n, Field::Name));
                if self.is("=") {
                    kids.push(self.leaf());
                    let v = self.expression()?;
                    kids.push(part(v, Field::Value));
                }
                self.end_of_statement(&mut kids);
                Some(inner(Kind::LocalDeclaration, kids))
            }
            "if" => {
                let mut kids = vec![self.leaf(), self.expect("(")?];
                let c = self.expression()?;
                kids.push(part(c, Field::Condition));
                kids.push(self.expect(")")?);
                kids.push(self.block()?);
                if self.is("else") {
                    let e = self.leaf();
                    let rest = if self.is("if") { self.statement()? } else { self.block()? };
                    kids.push(inner(Kind::Other, vec![e, rest]));
                }
                Some(inner(Kind::IfStatement, kids))
            }
            "when" => {
                let mut kids = vec![self.leaf(), self.expect("(")?];
                let s = self.expression()?;
                kids.push(part(s, Field::Subject));
                kids.push(self.expect(")")?);
                kids.push(self.expect("{")?);
                while self.is("is") {
                    let mut clause = vec![self.leaf(), self.expect("(")?];
                    clause.push(self.expression()?);
                    clause.push(self.expect(")")?);
                    clause.push(self.block()?);
                    kids.push(inner(Kind::Other, clause));
                }
                kids.push(self.expect("}")?);
                Some(inner(Kind::WhenStatement, kids))
            }
            "expand" => {
                let mut kids = vec![self.leaf(), self.expect("(")?];
                let v = self.name()?;
                kids.push(part(v, Field::Variable));
                kids.push(self.expect("=")?);
                kids.push(self.expression()?);
                kids.push(self.expect("to")?);
                kids.push(self.expression()?);
                kids.push(self.expect(")")?);
                kids.push(self.block()?);
                Some(inner(Kind::ExpandStatement, kids))
            }
            _ => {
                let e = self.expression()?;
                if ["=", "+=", "-=", "*=", "/="].contains(&self.text(self.i)) {
                    let op = self.leaf();
                    let v = self.expression()?;
                    let mut kids = vec![
                        part(e, Field::Target),
                        part(op, Field::Operator),
                        part(v, Field::Value),
                    ];
                    self.end_of_statement(&mut kids);
                    return Some(inner(Kind::AssignmentStatement, kids));
                }
                let mut kids = vec![e];
                self.end_of_statement(&mut kids);
                Some(inner(Kind::ExpressionStatement, kids))
            }
        }
    }

    fn statement_or_error(&mut self) -> Built {
        let (i, c, errors) = (self.i, self.c, self.errors);
        if let Some(s) = self.statement() {
            return s;
        }
        self.i = i;
        self.c = c;
        self.errors = errors + 1;
        let mut kids = vec![self.leaf()];
        while self.i < self.toks.len()
            && !self.is("}")
            && !self.src[kids[0].start..self.toks[self.i].start].contains('\n')
            && self.text(self.i - 1) != ";"
        {
            kids.push(self.leaf());
        }
        inner(Kind::Other, kids)
    }
}

fn flatten(b: &Built, parent: Option<usize>, out: &mut Vec<NodeData>) {
    let me = out.len();
    out.push(NodeData {
        kind: b.kind,
        start: b.start,
        end: b.end,
        parent,
        named: b.named,
        field: b.field,
    });
    for k in &b.kids {
        flatten(k, Some(me), out);
    }
}

/// The tree of a script, and how many errors it has.
fn parse_all(src: &str) -> (SyntaxTree, usize) {
    let (toks, comments) = tokens_of(src);
    let mut r = Reader { src, toks, comments, i: 0, c: 0, errors: 0 };
    let mut kids = Vec::new();
    while r.i < r.toks.len() {
        let at = r.toks[r.i].start;
        r.comments_before(at, &mut kids);
        let s = r.statement_or_error();
        kids.push(s);
    }
    r.comments_before(src.len() + 1, &mut kids);
    let root = Built {
        kind: Kind::SourceFile,
        start: 0,
        end: src.len(),
        named: true,
        field: None,
        kids,
    };
    let mut nodes = Vec::new();
    flatten(&root, None, &mut nodes);
    (SyntaxTree::new(src, nodes).expect("the nodes form a tree"), r.errors)
}

fn parse(src: &str) -> SyntaxTree {
    parse_all(src).0
}

// ---------------------------------------------------------------------------
// Reading a project
// ---------------------------------------------------------------------------

fn attr(tag: &str, name: &str) -> Option<String> {
    let needle = format!(" {name}=\"");
    let at = tag.find(&needle)? + needle.len();
    let end = tag[at..].find('"')? + at;
    Some(tag[at..end].to_string())
}

fn blank_symbol(path: &str, kind: SymbolKind) -> Symbol {
    Symbol {
        path: path.to_string(),
        kind,
        value_type: ValueType::Unknown,
        declared_type: None,
        unit: None,
        security: None,
        filename: None,
        class: None,
        classname: None,
        def_line: None,
        dbc_range: None,
        can: None,
        call_rate: None,
        log_rate: None,
        tags: Vec::new(),
        table_meta: None,
    }
}

fn rate(hz: f64) -> Rate {
    Rate { plain: format!("{hz}"), fixed: format!("{hz:.6}") }
}

fn project_of(xml: &str) -> Project {
    let mut enums: Vec<EnumType> = Vec::new();
    let mut symbols: Vec<Symbol> = Vec::new();
    let mut line = 0;
    let mut rest = xml;
    let mut types: Vec<(usize, String)> = Vec::new();
    while let Some(at) = rest.find('<') {
        line += rest[..at].matches('\n').count() as u32;
        let end = rest[at..].find('>').map(|k| at + k + 1).unwrap_or(rest.len());
        let tag = &rest[at..end];
        if tag.starts_with("<Type ") {
            enums.push(EnumType {
                name: attr(tag, "Name").unwrap(),
                members: Vec::new(),
                default: attr(tag, "Default"),
            });
        } else if tag.starts_with("<Enum ") {
            let order = attr(tag, "ContainerOrder").unwrap().parse().unwrap();
            enums.last_mut().unwrap().members.push((attr(tag, "Name").unwrap(), order));
        } else if tag.starts_with("<Component ") {
            let class = attr(tag, "Classname").unwrap();
            let kind = if class.starts_with("BuiltIn.GroupCompound") {
                SymbolKind::Group
            } else if class.starts_with("BuiltIn.Channel") || class.starts_with("BuiltIn.CAN.Signal") {
                SymbolKind::Channel
            } else if class.starts_with("BuiltIn.Parameter") {
                SymbolKind::Parameter
            } else if class.starts_with("BuiltIn.Constant") {
                SymbolKind::Constant
            } else if class.starts_with("BuiltIn.Table") {
                SymbolKind::Table
            } else if class.starts_with("BuiltIn.Method") {
                SymbolKind::Method
            } else if class.starts_with("BuiltIn.Func") || class.starts_with("BuiltIn.CalFunc") {
                SymbolKind::Function
            } else {
                SymbolKind::Object
            };
            let mut s = blank_symbol(&attr(tag, "Name").unwrap(), kind);
            s.classname = Some(class);
            s.filename = attr(tag, "Filename");
            s.def_line = Some(line);
            symbols.push(s);
        } else if tag.starts_with("<Props ") {
            let n = symbols.len() - 1;
            let s = &mut symbols[n];
            if let Some(t) = attr(tag, "Type") {
                s.value_type = match t.as_str() {
                    "f32" => ValueType::Float,
                    "s32" => ValueType::Integer,
                    "u8" | "u16" | "u32" => ValueType::Unsigned,
                    "bool" => ValueType::Boolean,
                    _ => ValueType::Unknown,
                };
                types.push((n, t));
            }
            if let Some(q) = attr(tag, "Qty") {
                s.unit = Some(if q == "rad/s" { "deg/s".to_string() } else { q });
                if attr(tag, "Type").is_none() {
                    s.value_type = ValueType::Float;
                }
            }
            s.security = attr(tag, "Security");
            s.log_rate = attr(tag, "DefaultLogRate").map(|r| {
                let ms: f64 = r.strip_suffix("MS").unwrap().parse().unwrap();
                rate(1000.0 / ms)
            });
            let number = |name: &str| attr(tag, name).map(|n| n.parse().unwrap());
            let fraction = |name: &str| {
                attr(tag, name).map(|n| {
                    let x: f64 = n.parse().unwrap();
                    format!("{x:.6}")
                })
            };
            let can = CanMeta {
                can_id: number("CANId"),
                dlc: number("DLC"),
                start_bit: number("StartBit"),
                length: number("Length"),
                multiplier: fraction("Multiplier"),
                offset: fraction("Offset"),
            };
            if can.can_id.is_some() || can.start_bit.is_some() {
                s.can = Some(can);
            }
            if let Some(t) = attr(tag, "SelectedTrigger") {
                let event = t.rsplit("On ").next().unwrap().trim_end_matches("Hz");
                s.call_rate = event.parse().ok().map(rate);
            }
        }
        line += tag.matches('\n').count() as u32;
        rest = &rest[end..];
    }
    for (n, t) in types {
        if let Some(name) = t.strip_prefix("::This.") {
            match enums.iter().position(|e| e.name == name) {
                Some(id) => symbols[n].value_type = ValueType::Enum(id),
                None => symbols[n].declared_type = Some(t.clone()),
            }
        }
    }
    Project { symbols, enums }
}

fn backing(s: &Symbol) -> String {
    s.filename.clone().unwrap_or_else(|| {
        format!("{}.m1scr", s.path.strip_prefix("Root.").unwrap_or(&s.path))
    })
}

fn is_callable(s: &Symbol) -> bool {
    matches!(s.kind, SymbolKind::Function | SymbolKind::Method)
}

/// The group that a script belongs to.
fn group_for_script(project: &Project, file: &str) -> Option<String> {
    project
        .symbols
        .iter()
        .find(|s| is_callable(s) && backing(s) == file)
        .and_then(|s| s.path.rsplit_once('.').map(|(g, _)| g.to_string()))
}

fn overload(name: &str, params: &[(&str, &str)], returns: &str) -> Overload {
    Overload {
        name: name.to_string(),
        params: params
            .iter()
            .map(|(n, t)| Param { name: n.to_string(), ty: t.to_string() })
            .collect(),
        returns: returns.to_string(),
        doc: format!("What {name} does."),
        stateful: false,
        deprecated: false,
        calibration_only: false,
    }
}

fn calibration(name: &str) -> Overload {
    let mut o = overload(name, &[("x", "Float")], "Float");
    o.calibration_only = true;
    o
}

fn as_integer() -> Overload {
    let mut o = overload("AsInteger", &[], "Integer");
    o.doc = "The Integer representation of the value.".to_string();
    o
}

fn object(name: &str, functions: Vec<Overload>) -> LibraryObject {
    LibraryObject { name: name.to_string(), doc: format!("About {name}."), functions }
}

fn intrinsics() -> Intrinsics {
    let two = [("a", "Float"), ("b", "Float")];
    Intrinsics {
        library: vec![
            object("Calculate", vec![overload("Max", &two, "Float"), overload("Min", &two, "Float")]),
            object(
                "System",
                vec![
                    overload("Preserve", &[("x", "Float")], "None"),
                    overload("Debug", &[("text", "String")], "None"),
                    calibration("StrCat"),
                ],
            ),
            object("Math", vec![overload("fabs", &[("x", "Float")], "Float"), calibration("Sqrt")]),
            object("UI", vec![calibration("Show")]),
        ],
        methods: vec![
            as_integer(),
            overload("Lookup", &[("x", "Float"), ("y", "Float")], "Float"),
        ],
        class_docs: vec![(
            "Sensor".to_string(),
            "Inputs that require calibration before use.".to_string(),
        )],
        keywords: vec![
            ["if", "else", "when", "is", "expand", "to"].iter().map(|s| s.to_string()).collect(),
            ["local", "static", "and", "or", "not"].iter().map(|s| s.to_string()).collect(),
        ],
    }
}

fn copy_symbol(s: &Symbol) -> Symbol {
    let copy_rate = |r: &Option<Rate>| {
        r.as_ref().map(|r| Rate { plain: r.plain.clone(), fixed: r.fixed.clone() })
    };
    Symbol {
        path: s.path.clone(),
        kind: s.kind,
        value_type: s.value_type,
        declared_type: s.declared_type.clone(),
        unit: s.unit.clone(),
        security: s.security.clone(),
        filename: s.filename.clone(),
        class: s.class.clone(),
        classname: s.classname.clone(),
        def_line: s.def_line,
        dbc_range: s.dbc_range.clone(),
        can: s.can.as_ref().map(|c| CanMeta {
            can_id: c.can_id,
            dlc: c.dlc,
            start_bit: c.start_bit,
            length: c.length,
            multiplier: c.multiplier.clone(),
            offset: c.offset.clone(),
        }),
        call_rate: copy_rate(&s.call_rate),
        log_rate: copy_rate(&s.log_rate),
        tags: s.tags.clone(),
        table_meta: None,
    }
}

/// What a path names: a local, a symbol seen from the group, a part of the library.
fn resolve(
    path: &str,
    locals: &[(String, ValueType)],
    group: Option<&str>,
    project: Option<&Project>,
) -> Resolution {
    if let Some((_, t)) = locals.iter().find(|(n, _)| n == path) {
        return Resolution::Local(*t);
    }
    if let Some(p) = project {
        let mut tries = vec![path.to_string(), format!("Root.{path}")];
        let mut g = group.map(|g| g.to_string());
        while let Some(at) = g {
            tries.push(format!("{at}.{path}"));
            g = at.rsplit_once('.').map(|(up, _)| up.to_string());
        }
        for t in tries {
            if let Some(s) = p.symbols.iter().find(|s| s.path == t) {
                return Resolution::Symbol(copy_symbol(s));
            }
        }
    }
    let lib = intrinsics();
    if lib.library.iter().any(|o| o.name == path) {
        return Resolution::BuiltinObject(path.to_string());
    }
    if let Some((head, name)) = path.rsplit_once('.') {
        for o in lib.library {
            if o.name == head && o.functions.iter().any(|f| f.name == name) {
                return Resolution::BuiltinFn(
                    o.functions.into_iter().filter(|f| f.name == name).collect(),
                );
            }
        }
    }
    if path.starts_with(|c: char| c.is_uppercase()) {
        Resolution::Opaque
    } else {
        Resolution::Unresolved
    }
}

fn type_of(
    tree: &SyntaxTree,
    n: usize,
    locals: &[(String, ValueType)],
    group: Option<&str>,
    project: Option<&Project>,
) -> ValueType {
    let ks = tree.children(n);
    match tree.kind(n) {
        Kind::Number => {
            if tree.text_of(n).contains('.') {
                ValueType::Float
            } else {
                ValueType::Integer
            }
        }
        Kind::Boolean => ValueType::Boolean,
        Kind::String => ValueType::String,
        Kind::Identifier | Kind::MemberExpression => {
            match resolve(&tree.text_of(n), locals, group, project) {
                Resolution::Local(t) => t,
                Resolution::Symbol(s) => s.value_type,
                _ => ValueType::Unknown,
            }
        }
        Kind::ParenthesizedExpression => type_of(tree, ks[1], locals, group, project),
        Kind::BinaryExpression => {
            let a = type_of(tree, ks[0], locals, group, project);
            let b = type_of(tree, ks[2], locals, group, project);
            match tree.text_of(ks[1]).as_str() {
                "+" | "-" | "*" | "/" => {
                    if a == ValueType::Float || b == ValueType::Float {
                        ValueType::Float
                    } else if a == b {
                        a
                    } else {
                        ValueType::Unknown
                    }
                }
                _ => ValueType::Boolean,
            }
        }
        _ => ValueType::Unknown,
    }
}

/// The initialisers with their types, each in the light of the locals before it.
fn initial_types(
    tree: &SyntaxTree,
    group: Option<&str>,
    project: Option<&Project>,
) -> Vec<(usize, ValueType)> {
    let mut locals: Vec<(String, ValueType)> = Vec::new();
    let mut types = Vec::new();
    for n in 0..tree.len() {
        if tree.kind(n) != Kind::LocalDeclaration {
            continue;
        }
        let t = match tree.child_by_field(n, Field::Value) {
            Some(v) => {
                let t = type_of(tree, v, &locals, group, project);
                types.push((v, t));
                t
            }
            None => ValueType::Unknown,
        };
        if let Some(name) = tree.named_child_of(n, Kind::Identifier, Kind::Identifier) {
            let name = tree.text_of(name);
            locals.retain(|(k, _)| *k != name);
            locals.push((name, t));
        }
    }
    types
}

fn scope_of(tree: &SyntaxTree, project: Option<&Project>, file: Option<&str>) -> Scope {
    let group = match (project, file) {
        (Some(p), Some(f)) => group_for_script(p, f),
        _ => None,
    };
    let initial = initial_types(tree, group.as_deref(), project);
    let locals = collect_locals(tree, &initial);
    let mut table: Vec<(String, Resolution)> = Vec::new();
    for path in scope_paths(tree) {
        if !table.iter().any(|(p, _)| *p == path) {
            let r = resolve(&path, &locals, group.as_deref(), project);
            table.push((path.clone(), r));
        }
    }
    let types = (0..tree.len())
        .filter_map(|n| {
            if tree.kind(n) == Kind::LocalDeclaration {
                let v = tree.child_by_field(n, Field::Value)?;
                Some((v, type_of(tree, v, &locals, group.as_deref(), project)))
            } else {
                None
            }
        })
        .collect();
    build_scope(tree, &initial, group, table, types)
}

/// A project on a disk that is only thought of.
struct Store {
    loaded: LoadedProject,
    prj: LineIndex,
    prj_text: String,
    files: Vec<(String, String)>,
}

const DIR: &str = "/proj";

fn store(xml: &str, files: &[(&str, &str)]) -> Store {
    Store {
        loaded: LoadedProject {
            project: project_of(xml),
            root: DIR.to_string(),
            m1prj_path: format!("{DIR}/Project.m1prj"),
            script_files: files.iter().map(|(n, _)| format!("{DIR}/{n}")).collect(),
        },
        prj: LineIndex::new(xml),
        prj_text: xml.to_string(),
        files: files.iter().map(|(n, t)| (format!("{DIR}/{n}"), t.to_string())).collect(),
    }
}

fn uri_in(name: &str) -> String {
    format!("file://{DIR}/{}", name.replace(' ', "%20"))
}

impl Store {
    fn project(&self) -> &Project {
        &self.loaded.project
    }

    fn script(&self, uri: &str, text: &str) -> Script {
        let path = uri.strip_prefix("file://").unwrap().replace("%20", " ");
        let name = file_name(&path).unwrap();
        let tree = parse(text);
        let scope = scope_of(&tree, Some(self.project()), Some(&name));
        Script {
            uri: uri.to_string(),
            file_name: name,
            tree,
            index: LineIndex::new(text),
            scope,
        }
    }

    /// The scripts, that of the cursor first.
    fn scripts_from(&self, cursor_uri: &str, cursor_text: Option<&str>) -> Vec<Script> {
        let texts = Texts { open: Vec::new(), disk: self.files.clone() };
        gather_project_scripts(&self.loaded.script_files, cursor_uri, cursor_text, &texts)
            .iter()
            .map(|(u, t)| self.script(u, t))
            .collect()
    }

    fn scripts(&self) -> Vec<Script> {
        self.files.iter().map(|(p, t)| self.script(&format!("file://{p}").replace(' ', "%20"), t)).collect()
    }

    fn rename(&self, src: &str, byte: usize, name: &str, file: &str) -> Result<WorkspaceEdit, String> {
        let tree = parse(src);
        let scope = scope_of(&tree, Some(self.project()), Some(file));
        let uri = uri_in(file);
        let scripts = self.scripts_from(&uri, None);
        execute(
            &tree,
            byte,
            name,
            &uri,
            &LineIndex::new(src),
            ENC,
            Some(&self.loaded),
            &scope,
            Some(&self.prj),
            &scripts,
        )
    }
}

fn no_scripts() -> Vec<Script> {
    Vec::new()
}

fn full_range() -> Range {
    Range {
        start: Position { line: 0, character: 0 },
        end: Position { line: 10_000, character: 0 },
    }
}

// ---------------------------------------------------------------------------
// Locating
// ---------------------------------------------------------------------------

#[test]
fn locates_bare_identifier() {
    let tree = parse("Ratio = 2;\n");
    let (_, path) = path_at_byte(&tree, 2).unwrap();
    assert_eq!(path, "Ratio");
}

#[test]
fn locates_member_path() {
    let src = "Vund Klee.Trilby Glonk = 1;\n";
    let tree = parse(src);
    let byte = src.find("Trilby").unwrap();
    let (_, path) = path_at_byte(&tree, byte).unwrap();
    assert_eq!(path, "Vund Klee.Trilby Glonk");
}

#[test]
fn whitespace_has_no_path() {
    let src = "x = 1;\n";
    let tree = parse(src);
    let byte = src.find("= 1").unwrap() + 1;
    assert!(path_at_byte(&tree, byte).is_none());
}

fn local_type(src: &str, name: &str) -> Option<ValueType> {
    let tree = parse(src);
    let types = initial_types(&tree, None, None);
    collect_locals(&tree, &types).into_iter().find(|(n, _)| n == name).map(|(_, t)| t)
}

#[test]
fn collects_typed_locals() {
    let src = "local fGain = 1.0;\nlocal iCount = 0;\n";
    assert_eq!(local_type(src, "fGain"), Some(ValueType::Float));
    assert_eq!(local_type(src, "iCount"), Some(ValueType::Integer));
}

#[test]
fn infers_type_from_initializer_when_no_prefix() {
    let src = "local count = 0;\nlocal ratio = 1.5;\nlocal flag = true;\n";
    assert_eq!(local_type(src, "count"), Some(ValueType::Integer));
    assert_eq!(local_type(src, "ratio"), Some(ValueType::Float));
    assert_eq!(local_type(src, "flag"), Some(ValueType::Boolean));
}

#[test]
fn initializer_type_wins_over_name_prefix() {
    assert_eq!(local_type("local fCount = 0;\n", "fCount"), Some(ValueType::Integer));
}

// ---------------------------------------------------------------------------
// Selection, folding, outline
// ---------------------------------------------------------------------------

fn depth(mut s: &SelectionRange) -> usize {
    let mut n = 1;
    while let Some(p) = &s.parent {
        n += 1;
        s = p;
    }
    n
}

fn key(p: Position) -> (u32, u32) {
    (p.line, p.character)
}

#[test]
fn grows_from_statement_out_to_the_if_block() {
    let src = "if (a)\n{\nValue = 1;\n}\n";
    let tree = parse(src);
    let li = LineIndex::new(src);
    let byte = src.find("Value").unwrap();
    let sel = selection_range(&tree, byte, &li, ENC).expect("a selection range at a valid position");
    assert!(depth(&sel) >= 3, "expected nested ranges (stmt < block < if)");
    let mut cur = &sel;
    while let Some(parent) = &cur.parent {
        assert!(
            key(parent.range.start) <= key(cur.range.start)
                && key(cur.range.end) <= key(parent.range.end),
            "parent must contain child"
        );
        assert_ne!(parent.range, cur.range);
        cur = parent;
    }
}

#[test]
fn folds_a_multiline_block() {
    let src = "if (x eq 1)\n{\n  Reset = 1;\n  y = 2;\n}\n";
    let folds = folding_ranges(&parse(src), &LineIndex::new(src), ENC);
    assert!(
        folds.iter().any(|f| f.start_line == 1 && f.end_line == 4),
        "expected a block fold spanning the braces, got {folds:?}"
    );
}

#[test]
fn folds_a_multiline_block_comment() {
    let src = "/* line one\n   line two */\nx = 1;\n";
    let folds = folding_ranges(&parse(src), &LineIndex::new(src), ENC);
    assert!(
        folds.iter().any(|f| f.kind == Some(FoldingRangeKind::Comment) && f.start_line == 0),
        "expected a comment fold, got {folds:?}"
    );
}

#[test]
fn does_not_fold_single_line_block() {
    let src = "when (a is equal to 1) { x = 1; }\n";
    let folds = folding_ranges(&parse(src), &LineIndex::new(src), ENC);
    assert!(folds.is_empty(), "single-line block should not fold: {folds:?}");
}

#[test]
fn lists_locals_and_assignments() {
    let src = "local fGain = 1.0;\nRatio = 2;\n";
    let syms = document_symbols(&parse(src), &LineIndex::new(src), ENC);
    let names: Vec<_> = syms.iter().map(|s| s.name.as_str()).collect();
    assert!(names.contains(&"fGain"));
    assert!(names.contains(&"Ratio"));
    assert_eq!(syms[0].kind, OutlineKind::Variable);
    assert_eq!(syms[1].kind, OutlineKind::Field);
}

#[test]
fn assignment_leaves_carry_distinguishing_detail() {
    let src = "Out = 1;\nOut = 2;\n";
    let syms = document_symbols(&parse(src), &LineIndex::new(src), ENC);
    let outs: Vec<_> = syms.iter().filter(|s| s.name == "Out").collect();
    assert_eq!(outs.len(), 2, "two assignments to Out: {syms:?}");
    assert!(outs[0].detail.is_some(), "leaves should carry detail");
    assert_ne!(
        outs[0].detail, outs[1].detail,
        "the two writes should be distinguishable: {outs:?}"
    );
    assert!(outs[0].detail.as_deref().unwrap().contains('1'));
}

#[test]
fn compound_assignment_detail_keeps_its_operator() {
    let src = "Out += 1;\nOut -= 1;\n";
    let syms = document_symbols(&parse(src), &LineIndex::new(src), ENC);
    let outs: Vec<_> = syms.iter().filter(|s| s.name == "Out").collect();
    assert_eq!(outs.len(), 2, "two compound writes to Out: {syms:?}");
    assert_eq!(outs[0].detail.as_deref(), Some("+= 1"));
    assert_eq!(outs[1].detail.as_deref(), Some("-= 1"));
    assert_ne!(outs[0].detail, outs[1].detail);
}

#[test]
fn detail_handles_rhs_containing_an_equals() {
    let src = "Out = a == b;\n";
    let syms = document_symbols(&parse(src), &LineIndex::new(src), ENC);
    let out = syms.iter().find(|s| s.name == "Out").unwrap();
    assert_eq!(out.detail.as_deref(), Some("= a == b"));
}

#[test]
fn lists_call_statements_as_leaves() {
    let src = "Output.SetState(1);\nTimer.Start();\n";
    let syms = document_symbols(&parse(src), &LineIndex::new(src), ENC);
    let names: Vec<_> = syms.iter().map(|s| s.name.as_str()).collect();
    assert!(names.contains(&"Output.SetState"), "got {names:?}");
    assert!(names.contains(&"Timer.Start"), "got {names:?}");
}

#[test]
fn surfaces_if_block_whose_only_children_are_calls() {
    let src = "if (ready) {\nOutput.SetState(1);\n}\n";
    let syms = document_symbols(&parse(src), &LineIndex::new(src), ENC);
    assert_eq!(syms.len(), 1, "an if block whose only child is a call should still appear: {syms:?}");
    assert!(syms[0].name.starts_with("if"));
    assert!(syms[0].children.as_ref().unwrap().iter().any(|k| k.name == "Output.SetState"));
}

#[test]
fn nests_symbols_under_when_block() {
    let src = "when (driveMode) {\nis (true) {\nOut = 1;\n}\n}\n";
    let syms = document_symbols(&parse(src), &LineIndex::new(src), ENC);
    assert_eq!(syms.len(), 1, "expected one top-level when container: {syms:?}");
    assert!(syms[0].name.starts_with("when"), "label: {}", syms[0].name);
    let kids = syms[0].children.as_ref().expect("when has children");
    assert!(kids.iter().any(|k| k.name == "Out"));
}

#[test]
fn nests_symbols_under_expand_block() {
    let src = "expand (i = 0 to 3) {\nOut = 1;\n}\n";
    let syms = document_symbols(&parse(src), &LineIndex::new(src), ENC);
    assert_eq!(syms.len(), 1, "expected one top-level expand container: {syms:?}");
    assert!(syms[0].name.starts_with("expand"), "label should name the expand: {}", syms[0].name);
    let kids = syms[0].children.as_ref().expect("expand has children");
    assert!(kids.iter().any(|k| k.name == "Out"), "got {kids:?}");
}

#[test]
fn nests_symbols_under_if_block() {
    let src = "if (ready) {\nOut = 1;\n}\n";
    let syms = document_symbols(&parse(src), &LineIndex::new(src), ENC);
    assert_eq!(syms.len(), 1);
    assert!(syms[0].name.starts_with("if"));
    assert!(syms[0].children.as_ref().unwrap().iter().any(|k| k.name == "Out"));
}

#[test]
fn outline_shortens_long_headers() {
    let src = "if (aaaaaaaaaa + bbbbbbbbbb   + cccccccccc + dddddddddd)\n{\n\tOut =   x\n\t\t+ y;\n}\n";
    let syms = document_symbols(&parse(src), &LineIndex::new(src), ENC);
    assert_eq!(syms[0].name, "if (aaaaaaaaaa + bbbbbbbbbb + cccccccccc + d…)");
    assert_eq!(syms[0].kind, OutlineKind::Namespace);
    let kids = syms[0].children.as_ref().unwrap();
    assert_eq!(kids[0].detail.as_deref(), Some("= x + y"));
    assert_eq!(key(syms[0].selection_range.start), (0, 0));
    assert_eq!(key(syms[0].selection_range.end), (0, 2));
}

// ---------------------------------------------------------------------------
// Semantic tokens
// ---------------------------------------------------------------------------

fn tokens(src: &str) -> Vec<SemanticToken> {
    let tree = parse(src);
    let scope = scope_of(&tree, None, None);
    semantic_tokens(&tree, &scope, &LineIndex::new(src), ENC)
}

#[test]
fn range_mode_returns_only_tokens_in_the_requested_lines() {
    let src = "local a = 1;\nlocal b = 2;\nlocal c = 3;\n";
    let tree = parse(src);
    let scope = scope_of(&tree, None, None);
    let ranged = semantic_tokens_range(&tree, &scope, &LineIndex::new(src), ENC, 1, 1);
    assert!(!ranged.is_empty(), "expected tokens on line 1");
    assert_eq!(ranged[0].delta_line, 1, "first token anchored at line 1");
    assert!(
        ranged[1..].iter().all(|t| t.delta_line == 0),
        "all ranged tokens should be on the single requested line"
    );
    assert!(ranged.len() < tokens(src).len());
}

#[test]
fn multiline_block_comment_gets_a_token_per_line() {
    let toks = tokens("/* line one\n   line two */\nx = 1;\n");
    let mut line = 0;
    let mut comment_lines = Vec::new();
    for t in &toks {
        line += t.delta_line;
        if t.token_type == TT_COMMENT {
            comment_lines.push(line);
        }
    }
    assert!(
        comment_lines.contains(&0) && comment_lines.contains(&1),
        "expected comment tokens on both line 0 and line 1, got {comment_lines:?}"
    );
}

#[test]
fn number_literal_gets_number_type() {
    let toks = tokens("x = 42;\n");
    let num = toks.iter().find(|t| t.token_type == TT_NUMBER);
    assert!(num.is_some(), "expected a number token");
}

#[test]
fn local_declaration_name_gets_variable_definition() {
    let toks = tokens("local fGain = 1.0;\n");
    let var = toks
        .iter()
        .find(|t| t.token_type == TT_VARIABLE && t.token_modifiers_bitset & TM_DEFINITION != 0);
    assert!(var.is_some(), "expected variable+definition token for local name");
}

#[test]
fn keywords_are_classified() {
    let toks = tokens("local x = 1;\nif x then\nend\n");
    let kw = toks.iter().filter(|t| t.token_type == TT_KEYWORD).count();
    assert!(kw >= 1, "expected at least one keyword token");
}

#[test]
fn local_variable_reference_gets_variable_type() {
    let toks = tokens("local fGain = 1.0;\nfGain = fGain + 1.0;\n");
    let vars: Vec<_> = toks.iter().filter(|t| t.token_type == TT_VARIABLE).collect();
    assert!(vars.len() >= 2);
}

#[test]
fn tokens_are_delta_encoded_correctly() {
    let toks = tokens("local fGain = 1.0;\n");
    assert_eq!(toks[0].delta_line, 0);
    let mut col = 0u32;
    for t in &toks {
        col = if t.delta_line == 0 { col + t.delta_start } else { t.delta_start };
        assert!(col < 200, "reconstructed column looks sane");
    }
    let starts: Vec<(u32, u32)> = toks.iter().map(|t| (t.delta_start, t.length)).collect();
    assert_eq!(starts, vec![(0, 5), (6, 5), (8, 3)]);
}

#[test]
fn string_literal_gets_string_type() {
    let toks = tokens("msg = \"hello\";\n");
    let s = toks.iter().find(|t| t.token_type == TT_STRING);
    assert!(s.is_some(), "expected a string token");
}

#[test]
fn line_comment_gets_comment_type() {
    let toks = tokens("// this is a comment\nx = 1;\n");
    let c = toks.iter().find(|t| t.token_type == TT_COMMENT);
    assert!(c.is_some(), "expected a comment token");
}

#[test]
fn no_duplicate_tokens_for_member_expression_children() {
    let toks = tokens("Foo.Bar = 1;\n");
    let props: Vec<_> = toks.iter().filter(|t| t.token_type == TT_PROPERTY).collect();
    assert_eq!(props.len(), 1, "expected exactly one property token for Foo.Bar");
}

#[test]
fn channel_resolves_to_property_token() {
    let st = store(
        r#"<?xml version="1.0"?>
<Project>
  <Component Classname="BuiltIn.GroupCompound" Name="Root"/>
  <Component Classname="BuiltIn.GroupCompound" Name="Root.Drive"/>
  <Component Classname="BuiltIn.Channel" Name="Root.Drive.Speed"><Props Type="s32"/></Component>
</Project>"#,
        &[],
    );
    let src = "Drive.Speed = 1;\n";
    let tree = parse(src);
    let scope = scope_of(&tree, Some(st.project()), Some("X.m1scr"));
    let toks = semantic_tokens(&tree, &scope, &LineIndex::new(src), ENC);
    assert!(
        toks.iter().any(|t| t.token_type == TT_PROPERTY),
        "channel access should emit a property token"
    );
    assert!(
        !toks.iter().any(|t| t.token_type == TT_VARIABLE),
        "channel access must not be a plain variable"
    );
}

#[test]
fn legend_names_what_tokens_refer_to() {
    let l = legend();
    assert_eq!(l.token_types[TT_KEYWORD as usize], "keyword");
    assert_eq!(l.token_types[TT_PROPERTY as usize], "property");
    assert_eq!(l.token_types.len(), 10);
    assert_eq!(l.token_modifiers, vec!["definition".to_string(), "readonly".to_string()]);
}

// ---------------------------------------------------------------------------
// Signatures
// ---------------------------------------------------------------------------

#[test]
fn renders_path_params_and_return() {
    let o = overload("Max", &[("a", "Float"), ("b", "Float")], "Float");
    assert_eq!(
        signature_label("Calculate.Max", &o),
        "Calculate.Max(a: Float, b: Float) -> Float"
    );
}

#[test]
fn renders_zero_params() {
    let o = overload("Now", &[], "Float");
    assert_eq!(signature_label("System.Now", &o), "System.Now() -> Float");
}

// ---------------------------------------------------------------------------
// References
// ---------------------------------------------------------------------------

fn refs(src: &str, at: &str) -> Vec<Location> {
    let byte = src.find(at).unwrap();
    references(&parse(src), byte, "file:///t.m1scr", &LineIndex::new(src), ENC).unwrap_or_default()
}

#[test]
fn finds_all_local_occurrences() {
    let locs = refs("local count = 0;\ncount = count + 1;\n", "count");
    assert_eq!(locs.len(), 3, "declaration + two uses");
}

#[test]
fn local_search_ignores_same_named_member_property() {
    let locs = refs("local count = 0;\nFoo.count = 1;\ncount = count + 1;\n", "count");
    assert_eq!(locs.len(), 3);
}

#[test]
fn finds_channel_path_occurrences() {
    let locs = refs("Output.Value = 1;\nOutput.Value = 2;\n", "Output");
    assert_eq!(locs.len(), 2);
}

#[test]
fn no_references_on_whitespace() {
    let src = "x = 1;\n";
    let byte = src.find("= 1").unwrap() + 1;
    assert!(references(&parse(src), byte, "file:///t.m1scr", &LineIndex::new(src), ENC).is_none());
}

#[test]
fn highlights_classify_write_vs_read() {
    let src = "local count = 0;\ncount = count + 1;\n";
    let byte = src.find("count").unwrap();
    let hl = document_highlights(&parse(src), byte, &LineIndex::new(src), ENC).unwrap();
    let writes = hl.iter().filter(|h| h.kind == DocumentHighlightKind::Write).count();
    let reads = hl.iter().filter(|h| h.kind == DocumentHighlightKind::Read).count();
    assert_eq!(writes, 2, "the decl and the `count =` assignment are writes");
    assert_eq!(reads, 1, "the `count + 1` use is a read");
}

#[test]
fn path_occurrences_do_not_overflow_on_deep_input() {
    let depth = 20_000;
    let mut src = String::with_capacity(depth * 2 + 8);
    src.push_str("x = ");
    for _ in 0..depth {
        src.push('(');
    }
    src.push('1');
    for _ in 0..depth {
        src.push(')');
    }
    src.push_str(";\n");
    // The tree, node by node: a parenthesis holds its opening and what it encloses.
    let node = |kind, start, end, parent, field| NodeData {
        kind,
        start,
        end,
        parent,
        named: true,
        field,
    };
    let mut nodes = vec![
        node(Kind::SourceFile, 0, src.len(), None, None),
        node(Kind::AssignmentStatement, 0, src.len() - 1, Some(0), None),
        node(Kind::Identifier, 0, 1, Some(1), Some(Field::Target)),
    ];
    let mut parent = 1;
    for k in 0..depth {
        let me = nodes.len();
        let (a, z) = (4 + k, 4 + 2 * depth + 1 - k);
        let field = if k == 0 { Some(Field::Value) } else { None };
        nodes.push(node(Kind::ParenthesizedExpression, a, z, Some(parent), field));
        parent = me;
    }
    nodes.push(node(Kind::Number, 4 + depth, 5 + depth, Some(parent), None));
    let tree = SyntaxTree::new(&src, nodes).unwrap();
    let occ = path_occurrences(&tree);
    assert!(occ.iter().any(|(p, _, _, w)| p == "x" && *w), "expected the write to `x`");
}

const ENGINE: &str = r#"<?xml version="1.0"?>
<Project>
  <Component Classname="BuiltIn.GroupCompound" Name="Root"/>
  <Component Classname="BuiltIn.GroupCompound" Name="Root.Engine"/>
  <Component Classname="BuiltIn.Channel" Name="Root.Engine.Speed"><Props Type="f32"/></Component>
  <Component Classname="BuiltIn.FuncUser" Name="Root.Engine.Write" Filename="A.m1scr"/>
  <Component Classname="BuiltIn.FuncUser" Name="Root.Engine.Read" Filename="B.m1scr"/>
</Project>"#;

fn files_of(locs: &[Location]) -> Vec<String> {
    let mut files: Vec<String> = locs.iter().map(|l| l.uri.clone()).collect();
    files.sort();
    files.dedup();
    files
}

#[test]
fn project_references_span_multiple_scripts() {
    let a_src = "Root.Engine.Speed = 1.0;\n";
    let b_src = "local x = Root.Engine.Speed;\n";
    let st = store(ENGINE, &[("A.m1scr", a_src), ("B.m1scr", b_src)]);
    let scripts = st.scripts_from(&uri_in("A.m1scr"), Some(a_src));
    let locs = project_references(&scripts, 0, 0, ENC).expect("references across files");
    assert_eq!(files_of(&locs).len(), 2, "references should span both scripts: {locs:?}");
    assert!(locs.iter().any(|l| l.uri.ends_with("A.m1scr")));
    assert!(locs.iter().any(|l| l.uri.ends_with("B.m1scr")));
}

#[test]
fn references_canonicalize_across_path_spellings() {
    let a_src = "Speed = 1.0;\n";
    let b_src = "local x = Root.Engine.Speed;\n";
    let st = store(ENGINE, &[("A.m1scr", a_src), ("B.m1scr", b_src)]);
    let scripts = st.scripts_from(&uri_in("A.m1scr"), Some(a_src));
    let locs = project_references(&scripts, 0, a_src.find("Speed").unwrap(), ENC)
        .expect("references across spellings");
    assert_eq!(
        files_of(&locs).len(),
        2,
        "group-relative cursor should still find the full-path reference: {locs:?}"
    );
    assert!(locs.iter().any(|l| l.uri.ends_with("A.m1scr")));
    assert!(locs.iter().any(|l| l.uri.ends_with("B.m1scr")));
    // The other spelling has the same references.
    let there = project_references(&scripts, 1, b_src.find("Root").unwrap(), ENC).unwrap();
    assert_eq!(format!("{locs:?}"), format!("{there:?}"));
}

#[test]
fn project_implementations_resolve_to_the_write_site() {
    let a_src = "Root.Engine.Speed = 1.0;\n";
    let b_src = "local x = Root.Engine.Speed;\n";
    let st = store(ENGINE, &[("A.m1scr", a_src), ("B.m1scr", b_src)]);
    let scripts = st.scripts_from(&uri_in("B.m1scr"), Some(b_src));
    let byte = b_src.find("Root").unwrap();
    let locs = project_implementations(&scripts, 0, byte, ENC)
        .expect("implementation resolves to the producer site");
    assert_eq!(locs.len(), 1, "exactly one write site: {locs:?}");
    assert!(
        locs[0].uri.ends_with("A.m1scr"),
        "implementation is the write in A, got {locs:?}"
    );
}

#[test]
fn project_references_span_scripts_without_filename_attributes() {
    let xml = r#"<?xml version="1.0"?>
<Project>
  <Component Classname="BuiltIn.GroupCompound" Name="Root"/>
  <Component Classname="BuiltIn.GroupCompound" Name="Root.Engine"/>
  <Component Classname="BuiltIn.Channel" Name="Root.Engine.Speed"><Props Type="f32"/></Component>
  <Component Classname="BuiltIn.MethodUser" Name="Root.Engine.Write"/>
  <Component Classname="BuiltIn.MethodUser" Name="Root.Engine.Read"/>
</Project>"#;
    let a_src = "Root.Engine.Speed = 1.0;\n";
    let b_src = "local x = Root.Engine.Speed;\n";
    let st = store(
        xml,
        &[("Scripts/Engine.Write.m1scr", a_src), ("Scripts/Engine.Read.m1scr", b_src)],
    );
    assert!(
        st.project().symbols.iter().all(|s| s.filename.is_none()),
        "this fixture must have no Filename attributes"
    );
    let scripts = st.scripts_from(&uri_in("Scripts/Engine.Write.m1scr"), Some(a_src));
    let locs = project_references(&scripts, 0, 0, ENC).expect("references across files");
    assert_eq!(files_of(&locs).len(), 2, "references should span both scripts: {locs:?}");
    assert!(locs.iter().any(|l| l.uri.ends_with("Engine.Write.m1scr")));
    assert!(locs.iter().any(|l| l.uri.ends_with("Engine.Read.m1scr")));
}

#[test]
fn highlights_canonicalize_mixed_spellings_in_one_file() {
    let xml = r#"<?xml version="1.0"?>
<Project>
  <Component Classname="BuiltIn.GroupCompound" Name="Root"/>
  <Component Classname="BuiltIn.GroupCompound" Name="Root.Engine"/>
  <Component Classname="BuiltIn.Channel" Name="Root.Engine.Speed"><Props Type="f32"/></Component>
  <Component Classname="BuiltIn.FuncUser" Name="Root.Engine.Calc" Filename="C.m1scr"/>
</Project>"#;
    let c_src = "Speed = 1.0;\nlocal x = Root.Engine.Speed;\n";
    let st = store(xml, &[("C.m1scr", c_src)]);
    let tree = parse(c_src);
    let scope = scope_of(&tree, Some(st.project()), Some("C.m1scr"));
    let byte = c_src.find("Speed").unwrap();
    let hl = document_highlights_scoped(Some(&scope), &tree, byte, &LineIndex::new(c_src), ENC)
        .expect("highlights");
    assert_eq!(hl.len(), 2, "group-relative write + full-path read should both highlight: {hl:?}");
    let plain = document_highlights(&tree, byte, &LineIndex::new(c_src), ENC).unwrap();
    assert_eq!(plain.len(), 1, "by text alone only the one spelling");
}

// ---------------------------------------------------------------------------
// Hints
// ---------------------------------------------------------------------------

fn hints(src: &str) -> Vec<InlayHint> {
    let tree = parse(src);
    let scope = scope_of(&tree, None, None);
    inlay_hints(&tree, full_range(), &LineIndex::new(src), ENC, &intrinsics(), &scope, false)
}

fn labels(hs: &[InlayHint]) -> Vec<String> {
    hs.iter().map(|h| h.label.clone()).collect()
}

#[test]
fn hints_inferred_local_type() {
    let h = hints("local count = 0;\n");
    assert_eq!(h.len(), 1);
    assert_eq!(h[0].label, ": Integer");
    assert_eq!(h[0].kind, InlayHintKind::Type);
}

#[test]
fn local_to_local_copy_propagates_type_without_project() {
    let l = labels(&hints("local count = 0;\nlocal copy = count;\n"));
    assert!(
        l.iter().filter(|l| *l == ": Integer").count() >= 2,
        "both the literal local and its copy should be hinted Integer: {l:?}"
    );
}

const DEMO_SPEED: &str = r#"<?xml version="1.0"?>
<Project>
  <Component Classname="BuiltIn.GroupCompound" Name="Root"/>
  <Component Classname="BuiltIn.GroupCompound" Name="Root.Demo"/>
  <Component Classname="BuiltIn.Channel" Name="Root.Demo.Speed"><Props Qty="rad/s"/></Component>
</Project>"#;

fn project_hints(
    st: &Store,
    src: &str,
    file: &str,
    eval: Option<EvalInlayContext<'_>>,
) -> Vec<InlayHint> {
    let tree = parse(src);
    let scope = scope_of(&tree, Some(st.project()), Some(file));
    let li = LineIndex::new(src);
    inlay_hints_with_eval(&tree, full_range(), &li, ENC, &intrinsics(), &scope, true, eval)
}

#[test]
fn channel_read_and_copy_infer_type_with_project() {
    let st = store(DEMO_SPEED, &[]);
    let src = "local speed = Demo.Speed;\nlocal copy = speed;\n";
    let hs = project_hints(&st, src, "Demo.Update.m1scr", None);
    let l = labels(&hs);
    assert!(
        l.iter().filter(|l| *l == ": Float").count() >= 2,
        "channel-read local and its copy should both hint Float: {l:?}"
    );
}

#[test]
fn unit_hints_at_channel_references() {
    let st = store(DEMO_SPEED, &[]);
    let hs = project_hints(&st, "x = Demo.Speed + 1;\n", "X.m1scr", None);
    assert!(
        hs.iter().any(|h| h.label.contains('[') && h.label.contains("/s")),
        "expected a unit hint at the channel reference: {:?}",
        labels(&hs)
    );
}

#[test]
fn param_name_hints_at_library_call_args() {
    let h = hints("x = Calculate.Max(a, b);\n");
    let params: Vec<String> = h
        .iter()
        .filter(|h| h.kind == InlayHintKind::Parameter)
        .map(|h| h.label.clone())
        .collect();
    assert!(
        params.iter().any(|p| p.ends_with(':')),
        "expected `name:` parameter hints, got {params:?}"
    );
    assert_eq!(params.len(), 2, "one hint per argument: {params:?}");
}

#[test]
fn hint_follows_initializer_not_name_prefix() {
    let h = hints("local fGain = 0;\n");
    assert_eq!(h[0].label, ": Integer");
}

#[test]
fn no_hint_when_explicitly_annotated() {
    let h = hints("local <Float> fGain = 1.0;\n");
    assert!(h.is_empty(), "explicitly-annotated local should get no hint");
}

#[test]
fn no_hint_for_unknown_type() {
    let h = hints("local thing = Something.Else;\n");
    assert!(h.is_empty());
}

#[test]
fn hint_position_is_after_the_name() {
    let h = hints("local count = 0;\n");
    assert_eq!(h[0].position.line, 0);
    assert_eq!(h[0].position.character, 11);
}

#[test]
fn hints_stay_on_the_lines_asked_for() {
    let src = "local a = 0;\nlocal b = 1;\nlocal c = 2;\n";
    let tree = parse(src);
    let scope = scope_of(&tree, None, None);
    let line = |n| Position { line: n, character: 0 };
    let range = Range { start: line(1), end: line(1) };
    let h = inlay_hints(&tree, range, &LineIndex::new(src), ENC, &intrinsics(), &scope, false);
    assert_eq!(h.len(), 1);
    assert_eq!(h[0].position.line, 1);
}

const DEMO_OUTPUT: &str = r#"<?xml version="1.0"?>
<Project>
  <Component Classname="BuiltIn.GroupCompound" Name="Root"/>
  <Component Classname="BuiltIn.GroupCompound" Name="Root.Demo"/>
  <Component Classname="BuiltIn.Channel" Name="Root.Demo.Output"><Props Type="f32" Qty="V"/></Component>
  <Component Classname="BuiltIn.FuncUser" Name="Root.Demo.Update" Filename="Demo.Update.m1scr"/>
</Project>"#;

fn empty_trace() -> Trace {
    Trace { channels: Vec::new(), channel_lines: Vec::new(), expr_lines: Vec::new() }
}

fn trace_for(path: &str, value: &str) -> Trace {
    let mut t = empty_trace();
    t.channels.push((path.to_string(), vec![value.to_string()]));
    t
}

fn scenario() -> Provenance {
    Provenance::Scenario("idle.toml".to_string())
}

fn eval_hints(src: &str, trace: &Trace, provenance: &Provenance) -> Vec<InlayHint> {
    let st = store(DEMO_OUTPUT, &[]);
    let ctx = EvalInlayContext { trace, provenance, tick: TickPolicy::Last };
    project_hints(&st, src, "Demo.Update.m1scr", Some(ctx))
}

#[test]
fn value_hint_on_assignment_target_with_scenario() {
    let trace = trace_for("Root.Demo.Output", "50");
    let l = labels(&eval_hints("Output = 1;\n", &trace, &scenario()));
    assert!(
        l.iter().any(|l| l == "= 50"),
        "expected a `= 50` value hint on the assignment target: {l:?}"
    );
    assert!(!l.iter().any(|l| l.contains('?')), "scenario value must not be muted: {l:?}");
}

#[test]
fn no_value_hints_without_eval_context() {
    let st = store(DEMO_OUTPUT, &[]);
    let l = labels(&project_hints(&st, "Output = 1;\n", "Demo.Update.m1scr", None));
    assert!(!l.iter().any(|l| l.starts_with("= ")), "no value hints when eval is off: {l:?}");
}

#[test]
fn plain_inlay_hints_never_emits_value_hints() {
    let st = store(DEMO_OUTPUT, &[]);
    let src = "Output = 1;\n";
    let tree = parse(src);
    let scope = scope_of(&tree, Some(st.project()), Some("Demo.Update.m1scr"));
    let li = LineIndex::new(src);
    let hs = inlay_hints(&tree, full_range(), &li, ENC, &intrinsics(), &scope, true);
    let l = labels(&hs);
    assert!(
        !l.iter().any(|l| l.starts_with("= ")),
        "the plain entry point never adds value hints: {l:?}"
    );
}

#[test]
fn offline_default_value_hint_is_muted() {
    let trace = trace_for("Root.Demo.Output", "50");
    let hs = eval_hints("Output = 1;\n", &trace, &Provenance::OfflineDefault);
    let l = labels(&hs);
    assert!(
        l.iter().any(|l| l == "= 50?"),
        "offline-default value must render the muted `= 50?` form: {l:?}"
    );
    let muted = hs.iter().find(|h| h.label == "= 50?").expect("muted hint present");
    assert!(muted.tooltip.is_some(), "muted value hint should carry an explanatory tooltip");
}

#[test]
fn value_hint_on_channel_read() {
    let trace = trace_for("Root.Demo.Output", "50");
    let l = labels(&eval_hints("x = Demo.Output + 1;\n", &trace, &scenario()));
    assert!(
        l.iter().any(|l| l == "= 50"),
        "expected a `= 50` value hint at the channel read: {l:?}"
    );
}

#[test]
fn no_value_hint_when_channel_absent_from_trace() {
    let trace = trace_for("Root.Demo.Elsewhere", "50");
    let l = labels(&eval_hints("Output = 1;\n", &trace, &scenario()));
    assert!(
        !l.iter().any(|l| l.starts_with("= ")),
        "no value hint for a channel absent from the trace: {l:?}"
    );
}

#[test]
fn value_hints_are_additive_to_existing_hints() {
    let trace = trace_for("Root.Demo.Output", "50");
    let l = labels(&eval_hints("local v = Demo.Output;\n", &trace, &scenario()));
    assert!(l.iter().any(|l| l.starts_with(": ")), "the local-type hint is still present: {l:?}");
    assert!(l.iter().any(|l| l.contains("[V]")), "the unit hint is still present: {l:?}");
    assert!(l.iter().any(|l| l == "= 50"), "the value hint is added: {l:?}");
}

// ---------------------------------------------------------------------------
// Call hierarchy
// ---------------------------------------------------------------------------

fn hierarchy() -> Store {
    store(
        r#"<?xml version="1.0"?>
<Project>
  <Component Classname="BuiltIn.GroupCompound" Name="Root"/>
  <Component Classname="BuiltIn.GroupCompound" Name="Root.Engine"/>
  <Component Classname="BuiltIn.Channel" Name="Root.Engine.Speed"><Props Type="f32"/></Component>
  <Component Classname="BuiltIn.MethodUser" Name="Root.Engine.Control"/>
  <Component Classname="BuiltIn.MethodUser" Name="Root.Engine.Dash"/>
  <Component Classname="BuiltIn.MethodUser" Name="Root.Engine.Safety"/>
</Project>"#,
        &[
            ("Scripts/Engine.Control.m1scr", "Root.Engine.Speed = 1.0;\n"),
            ("Scripts/Engine.Dash.m1scr", "local a = Root.Engine.Speed;\n"),
            ("Scripts/Engine.Safety.m1scr", "local b = Root.Engine.Speed + 1.0;\n"),
        ],
    )
}

#[test]
fn index_classifies_reads_and_writes() {
    let st = hierarchy();
    let g = CallGraph::build(st.project(), &st.scripts(), ENC);
    assert_eq!(g.users(true, "Root.Engine.Speed").unwrap().len(), 1);
    assert_eq!(g.users(false, "Root.Engine.Speed").unwrap().len(), 2);
    assert!(g.users(true, "Root.Engine.Other").is_none());
}

#[test]
fn channel_incoming_lists_readers() {
    let st = hierarchy();
    let item = channel_item(&st.loaded, "Root.Engine.Speed").unwrap();
    let calls = incoming(&st.loaded, &item, ENC, &st.scripts()).unwrap();
    let names: Vec<_> = calls.iter().map(|c| c.from.name.clone()).collect();
    assert!(names.contains(&"Engine.Dash.m1scr".to_string()));
    assert!(names.contains(&"Engine.Safety.m1scr".to_string()));
    assert_eq!(calls.len(), 2, "two readers");
    assert!(calls.iter().all(|c| !c.from_ranges.is_empty()));
}

#[test]
fn channel_outgoing_lists_writers() {
    let st = hierarchy();
    let item = channel_item(&st.loaded, "Root.Engine.Speed").unwrap();
    let calls = outgoing(&st.loaded, &item, ENC, &st.scripts()).unwrap();
    assert_eq!(calls.len(), 1, "one writer");
    assert_eq!(calls[0].to.name, "Engine.Control.m1scr");
}

#[test]
fn script_outgoing_lists_written_channels() {
    let st = hierarchy();
    let g = CallGraph::build(st.project(), &st.scripts(), ENC);
    let ctrl = g.script_by_file("Engine.Control.m1scr").unwrap();
    let item = script_item(&g.scripts[ctrl]);
    let calls = outgoing(&st.loaded, &item, ENC, &st.scripts()).unwrap();
    assert_eq!(calls.len(), 1);
    assert_eq!(calls[0].to.name, "Root.Engine.Speed");
    assert!(!calls[0].from_ranges.is_empty(), "write site range");
}

#[test]
fn script_incoming_lists_downstream_readers() {
    let st = hierarchy();
    let g = CallGraph::build(st.project(), &st.scripts(), ENC);
    let ctrl = g.script_by_file("Engine.Control.m1scr").unwrap();
    let item = script_item(&g.scripts[ctrl]);
    let calls = incoming(&st.loaded, &item, ENC, &st.scripts()).unwrap();
    let names: Vec<_> = calls.iter().map(|c| c.from.name.clone()).collect();
    assert!(names.contains(&"Engine.Dash.m1scr".to_string()));
    assert!(names.contains(&"Engine.Safety.m1scr".to_string()));
    assert_eq!(calls.len(), 2);
}

#[test]
fn prepare_on_channel_path_yields_channel_item() {
    let st = hierarchy();
    let text = "Root.Engine.Speed = 1.0;\n";
    let tree = parse(text);
    let scope = scope_of(&tree, Some(st.project()), Some("Engine.Control.m1scr"));
    let items =
        prepare_hierarchy(&st.loaded, &tree, &scope, 0, ENC, &st.scripts()).unwrap();
    assert_eq!(items.len(), 1);
    assert_eq!(items[0].name, "Root.Engine.Speed");
    assert_eq!(items[0].kind, ItemKind::Channel);
    assert_eq!(items[0].uri, "file:///proj/Project.m1prj");
    assert_eq!(items[0].range.start.line, 4);
}

#[test]
fn prepare_on_a_local_yields_no_hierarchy() {
    let st = hierarchy();
    let text = "local myValue = 42;\n";
    let tree = parse(text);
    let scope = scope_of(&tree, Some(st.project()), Some("Engine.Control.m1scr"));
    let got = prepare_hierarchy(&st.loaded, &tree, &scope, 6, ENC, &st.scripts());
    assert!(got.is_none(), "a local should yield no call hierarchy: {got:?}");
}

#[test]
fn entries_lead_back_to_what_they_stand_for() {
    let st = hierarchy();
    let text = "Engine.Dash();\n";
    let tree = parse(text);
    let scope = scope_of(&tree, Some(st.project()), Some("Engine.Control.m1scr"));
    let scripts = st.scripts();
    let items = prepare_hierarchy(&st.loaded, &tree, &scope, 8, ENC, &scripts).unwrap();
    assert_eq!(items[0].name, "Engine.Dash.m1scr");
    assert_eq!(items[0].kind, ItemKind::Script);
    assert_eq!(items[0].detail, "Root.Engine.Dash");
    let calls = outgoing(&st.loaded, &items[0], ENC, &scripts).unwrap();
    assert!(calls.is_empty(), "the script writes no channel");
    // An entry of another origin leads nowhere.
    let mut other = channel_item(&st.loaded, "Root.Engine.Speed").unwrap();
    other.data = Some("{\"k\":\"x\"}".to_string());
    assert!(incoming(&st.loaded, &other, ENC, &scripts).is_none());
    other.data = Some("no json".to_string());
    assert!(incoming(&st.loaded, &other, ENC, &scripts).is_none());
    other.data = None;
    assert!(outgoing(&st.loaded, &other, ENC, &scripts).is_none());
}

// ---------------------------------------------------------------------------
// Hover
// ---------------------------------------------------------------------------

fn hover_in(src: &str, byte: usize, project: Option<&Project>, file: Option<&str>) -> Option<String> {
    let tree = parse(src);
    let scope = scope_of(&tree, project, file);
    hover(&tree, byte, project, file, &intrinsics(), &scope, &LineIndex::new(src), ENC)
        .map(|h| h.value)
}

fn kw_hover(src: &str, find: &str) -> Option<String> {
    hover_in(src, src.find(find).unwrap(), None, None)
}

fn hover_value_at(project: &Project, src: &str, find: &str, file: &str) -> String {
    hover_in(src, src.find(find).unwrap(), Some(project), Some(file))
        .unwrap_or_else(|| panic!("no hover for `{find}`"))
}

fn check_primitive_type_name_in_annotation_has_doc_not_unmodelled() {
    let md = kw_hover("local <Integer> myValue = 0;\n", "Integer").unwrap();
    assert!(md.contains("primitive type"), "got: {md}");
    assert!(!md.contains("not modelled"), "should not show the unmodelled fallback: {md}");
}

#[test]
fn hover_primitive_type_name_in_annotation_has_doc_not_unmodelled() {
    check_primitive_type_name_in_annotation_has_doc_not_unmodelled();
}

#[test]
fn mod_primitive_type_name_in_annotation_has_doc_not_unmodelled() {
    check_primitive_type_name_in_annotation_has_doc_not_unmodelled();
}


fn check_multiword_primitive_type_name_has_doc() {
    let md = kw_hover("local <Floating Point> r = 0.0;\n", "Floating Point").unwrap();
    assert!(md.to_lowercase().contains("floating point"), "got: {md}");
    assert!(md.contains("primitive type"), "got: {md}");
}

#[test]
fn hover_multiword_primitive_type_name_has_doc() {
    check_multiword_primitive_type_name_has_doc();
}

#[test]
fn mod_multiword_primitive_type_name_has_doc() {
    check_multiword_primitive_type_name_has_doc();
}


fn check_unsigned_integer_primitive_has_doc() {
    let md = kw_hover("local <Unsigned Integer> u = 0;\n", "Unsigned Integer").unwrap();
    assert!(md.contains("primitive type"), "got: {md}");
    assert!(md.to_lowercase().contains("non-negative"), "got: {md}");
}

#[test]
fn hover_unsigned_integer_primitive_has_doc() {
    check_unsigned_integer_primitive_has_doc();
}

#[test]
fn mod_unsigned_integer_primitive_has_doc() {
    check_unsigned_integer_primitive_has_doc();
}


fn check_language_keyword_local_has_doc() {
    let md = kw_hover("local x = 1;\n", "local").expect("local should have a doc");
    assert!(md.contains("local variable"), "got: {md}");
    assert!(md.to_lowercase().contains("function"), "got: {md}");
}

#[test]
fn hover_language_keyword_local_has_doc() {
    check_language_keyword_local_has_doc();
}

#[test]
fn mod_language_keyword_local_has_doc() {
    check_language_keyword_local_has_doc();
}


fn check_language_keyword_when_explains_enum_match() {
    let md = kw_hover("when (Mode)\n{\nis (Red)\n{\n}\n}\n", "when").unwrap();
    assert!(md.contains("when"), "got: {md}");
    assert!(md.to_lowercase().contains("match"), "got: {md}");
}

#[test]
fn hover_language_keyword_when_explains_enum_match() {
    check_language_keyword_when_explains_enum_match();
}

#[test]
fn mod_language_keyword_when_explains_enum_match() {
    check_language_keyword_when_explains_enum_match();
}


fn check_language_keyword_expand_explains_compile_time_unroll() {
    let md = kw_hover("expand (i = 1 to 3)\n{\n}\n", "expand").unwrap();
    assert!(md.to_lowercase().contains("compile"), "got: {md}");
}

#[test]
fn hover_language_keyword_expand_explains_compile_time_unroll() {
    check_language_keyword_expand_explains_compile_time_unroll();
}

#[test]
fn mod_language_keyword_expand_explains_compile_time_unroll() {
    check_language_keyword_expand_explains_compile_time_unroll();
}


fn check_language_keyword_static_explains_persistence() {
    let md = kw_hover("static local x = 1;\n", "static").unwrap();
    assert!(
        md.to_lowercase().contains("across executions") || md.to_lowercase().contains("retain"),
        "got: {md}"
    );
}

#[test]
fn hover_language_keyword_static_explains_persistence() {
    check_language_keyword_static_explains_persistence();
}

#[test]
fn mod_language_keyword_static_explains_persistence() {
    check_language_keyword_static_explains_persistence();
}


fn check_reference_keyword_root_has_doc() {
    let md = kw_hover("Root.Demo.X = 0;\n", "Root").unwrap();
    assert!(md.to_lowercase().contains("root group"), "got: {md}");
}

#[test]
fn hover_reference_keyword_root_has_doc() {
    check_reference_keyword_root_has_doc();
}

#[test]
fn mod_reference_keyword_root_has_doc() {
    check_reference_keyword_root_has_doc();
}


fn check_reference_keyword_in_explains_input_args() {
    let md = kw_hover("In.Widget Count = 0;\n", "In").unwrap();
    assert!(md.to_lowercase().contains("input"), "got: {md}");
}

#[test]
fn hover_reference_keyword_in_explains_input_args() {
    check_reference_keyword_in_explains_input_args();
}

#[test]
fn mod_reference_keyword_in_explains_input_args() {
    check_reference_keyword_in_explains_input_args();
}


fn check_reference_keyword_parent_explains_container() {
    let md = kw_hover("Parent.X = 0;\n", "Parent").unwrap();
    assert!(
        md.to_lowercase().contains("containing") || md.to_lowercase().contains("parent"),
        "got: {md}"
    );
}

#[test]
fn hover_reference_keyword_parent_explains_container() {
    check_reference_keyword_parent_explains_container();
}

#[test]
fn mod_reference_keyword_parent_explains_container() {
    check_reference_keyword_parent_explains_container();
}


fn check_reference_keyword_doc_only_at_head_not_on_trailing_member() {
    let md = kw_hover("Root.Demo.X = 0;\n", "Demo");
    assert!(
        md.as_deref().map(|m| !m.contains("root group")).unwrap_or(true),
        "trailing segment wrongly got the Root doc: {md:?}"
    );
}

#[test]
fn hover_reference_keyword_doc_only_at_head_not_on_trailing_member() {
    check_reference_keyword_doc_only_at_head_not_on_trailing_member();
}

#[test]
fn mod_reference_keyword_doc_only_at_head_not_on_trailing_member() {
    check_reference_keyword_doc_only_at_head_not_on_trailing_member();
}


fn check_hovers_local_with_inferred_type() {
    let src = "local fGain = 1.0;\nfGain = fGain + 1.0;\n";
    let md = hover_in(src, src.rfind("fGain").unwrap(), None, None).unwrap();
    assert!(md.contains("local"));
    assert!(md.contains("Float"));
}

#[test]
fn hover_hovers_local_with_inferred_type() {
    check_hovers_local_with_inferred_type();
}

#[test]
fn mod_hovers_local_with_inferred_type() {
    check_hovers_local_with_inferred_type();
}


fn check_hover_names_the_enum_type() {
    let project = project_of(
        r#"<?xml version="1.0"?>
<Project>
  <DataTypes>
    <Type Name="Drive State" Storage="enum" Default="Idle">
      <Enum Name="Idle" ContainerOrder="1"/>
      <Enum Name="Off" ContainerOrder="0"/>
      <Enum Name="Running" ContainerOrder="2"/>
    </Type>
  </DataTypes>
  <Component Classname="BuiltIn.GroupCompound" Name="Root"/>
  <Component Classname="BuiltIn.GroupCompound" Name="Root.Control"/>
  <Component Classname="BuiltIn.Channel" Name="Root.Control.State"><Props Type="::This.Drive State"/></Component>
</Project>"#,
    );
    let md = hover_value_at(&project, "Control.State = 1;\n", "State", "X.m1scr");
    assert!(md.contains("Drive State"), "hover should name the enum type, got: {md}");
    assert!(md.contains("values:"), "got: {md}");
    assert!(md.contains("`Off`"), "got: {md}");
    assert!(md.contains("`Idle` (default)"), "got: {md}");
    assert!(md.contains("`Running`"), "got: {md}");
    let off = md.find("`Off`").unwrap();
    let idle = md.find("`Idle`").unwrap();
    let running = md.find("`Running`").unwrap();
    assert!(off < idle && idle < running, "values not in ContainerOrder: {md}");
}

#[test]
fn hover_hover_names_the_enum_type() {
    check_hover_names_the_enum_type();
}

#[test]
fn mod_hover_names_the_enum_type() {
    check_hover_names_the_enum_type();
}


fn check_opaque_hover_does_not_say_type_unknown() {
    let md = kw_hover("Output.Value = 1;\n", "Output").unwrap();
    assert!(
        !md.contains("type unknown"),
        "hover should not say 'type unknown' for opaque symbols: {md}"
    );
}

#[test]
fn hover_opaque_hover_does_not_say_type_unknown() {
    check_opaque_hover_does_not_say_type_unknown();
}

#[test]
fn mod_opaque_hover_does_not_say_type_unknown() {
    check_opaque_hover_does_not_say_type_unknown();
}


fn check_library_function_hover_shows_signature() {
    let md = kw_hover("x = Calculate.Max(a, b);\n", "Max").unwrap();
    assert!(md.contains("library function"), "{md}");
    assert!(md.contains("Calculate.Max"), "{md}");
    assert!(md.contains("->"), "{md}");
}

#[test]
fn hover_library_function_hover_shows_signature() {
    check_library_function_hover_shows_signature();
}

#[test]
fn mod_library_function_hover_shows_signature() {
    check_library_function_hover_shows_signature();
}


fn drive_state_project() -> Project {
    project_of(
        r#"<?xml version="1.0"?>
<Project>
  <DataTypes>
    <Type Name="Drive State" Storage="enum" Default="Idle">
      <Enum Name="Idle" ContainerOrder="1"/>
      <Enum Name="Off" ContainerOrder="0"/>
    </Type>
  </DataTypes>
  <Component Classname="BuiltIn.GroupCompound" Name="Root"/>
  <Component Classname="BuiltIn.GroupCompound" Name="Root.Control"/>
  <Component Classname="BuiltIn.Channel" Name="Root.Control.Drive State"><Props Type="::This.Drive State"/></Component>
</Project>"#,
    )
}

fn gear_state_project() -> Project {
    project_of(
        r#"<?xml version="1.0"?>
<Project>
  <DataTypes>
    <Type Name="Gear State" Storage="enum" Default="Neutral">
      <Enum Name="Neutral" ContainerOrder="0"/>
      <Enum Name="Driving" ContainerOrder="1"/>
    </Type>
  </DataTypes>
  <Component Classname="BuiltIn.GroupCompound" Name="Root"/>
  <Component Classname="BuiltIn.GroupCompound" Name="Root.Control"/>
  <Component Classname="BuiltIn.Channel" Name="Root.Control.Status"><Props Type="::This.Gear State"/></Component>
</Project>"#,
    )
}

fn assi_project(status_type: &str) -> Project {
    project_of(&format!(
        r#"<?xml version="1.0"?>
<Project>
  <DataTypes>
    <Type Name="ASSI" Storage="enum" Default="Off">
      <Enum Name="Off" ContainerOrder="0"/>
      <Enum Name="Driving" ContainerOrder="1"/>
    </Type>
  </DataTypes>
  <Component Classname="BuiltIn.GroupCompound" Name="Root"/>
  <Component Classname="BuiltIn.GroupCompound" Name="Root.Control"/>
  <Component Classname="BuiltIn.GroupCompound" Name="Root.Control.ASSI"/>
  <Component Classname="BuiltIn.Channel" Name="Root.Control.ASSI.Status"><Props Type="{status_type}"/></Component>
  <Component Classname="BuiltIn.MethodUser" Name="Root.Control.ASSI.Update"/>
</Project>"#
    ))
}

fn check_hover_resolves_each_segment_of_a_dotted_accessor_separately() {
    let project = drive_state_project();
    let src = "if (Control.Drive State.AsInteger() > 0)\n{\n}\n";
    let file = "Control.Update.m1scr";
    let on_control = hover_value_at(&project, src, "Control", file);
    assert!(on_control.contains("group"), "Control hover: {on_control}");
    assert!(
        !on_control.contains("AsInteger"),
        "Control hover must not describe the whole path: {on_control}"
    );
    let on_enum = hover_value_at(&project, src, "Drive State", file);
    assert!(
        on_enum.contains("Enum") && on_enum.contains("Drive State"),
        "Drive State hover should name the enum: {on_enum}"
    );
    assert!(
        !on_enum.contains("AsInteger"),
        "Drive State hover must not describe the method: {on_enum}"
    );
    let on_method = hover_value_at(&project, src, "AsInteger", file);
    assert!(on_method.contains("AsInteger"), "AsInteger hover should name the method: {on_method}");
    assert!(
        on_method.to_lowercase().contains("method"),
        "AsInteger hover should label it a method: {on_method}"
    );
    assert!(
        on_method.contains("Integer representation"),
        "AsInteger hover should show its doc: {on_method}"
    );
}

#[test]
fn hover_hover_resolves_each_segment_of_a_dotted_accessor_separately() {
    check_hover_resolves_each_segment_of_a_dotted_accessor_separately();
}

#[test]
fn mod_hover_resolves_each_segment_of_a_dotted_accessor_separately() {
    check_hover_resolves_each_segment_of_a_dotted_accessor_separately();
}


fn check_hover_on_enum_member_renders_enum_member_value() {
    let project = drive_state_project();
    let src = "Local State = Drive State.Off;\n";
    let on_member = hover_value_at(&project, src, "Off", "Control.Update.m1scr");
    assert!(
        on_member.contains("Drive State") && on_member.contains("Off"),
        "enum-member hover should name the enum and member: {on_member}"
    );
    assert!(
        on_member.to_lowercase().contains("enum member"),
        "enum-member hover should label it an enum member: {on_member}"
    );
    assert!(on_member.contains("= 0"), "enum-member hover should show the member's value: {on_member}");
    assert!(
        !on_member.contains("type not modelled"),
        "enum-member hover must not fall back to the not-modelled message: {on_member}"
    );
}

#[test]
fn hover_hover_on_enum_member_renders_enum_member_value() {
    check_hover_on_enum_member_renders_enum_member_value();
}

#[test]
fn mod_hover_on_enum_member_renders_enum_member_value() {
    check_hover_on_enum_member_renders_enum_member_value();
}


fn check_hover_on_case_variant_enum_head_still_names_the_enum() {
    let project = gear_state_project();
    let src = "Status = gear state.Driving;\n";
    let on_head = hover_value_at(&project, src, "gear state", "Control.Update.m1scr");
    assert!(
        on_head.contains("Gear State") && on_head.to_lowercase().contains("enum"),
        "case-variant head hover should name the canonical enum: {on_head}"
    );
    assert!(
        on_head.contains("Driving") && on_head.contains("Neutral"),
        "case-variant head hover should list the members: {on_head}"
    );
    let on_member = hover_value_at(&project, src, "Driving", "Control.Update.m1scr");
    assert!(
        on_member.contains("Gear State.Driving") && !on_member.contains("type not modelled"),
        "member behind a case-variant head must resolve: {on_member}"
    );
}

#[test]
fn hover_on_case_variant_enum_head_still_names_the_enum() {
    check_hover_on_case_variant_enum_head_still_names_the_enum();
}


fn check_hover_on_enum_type_head_names_the_enum() {
    let project = gear_state_project();
    let src = "Status = Gear State.Driving;\n";
    let on_head = hover_value_at(&project, src, "Gear State", "Control.Update.m1scr");
    assert!(
        on_head.contains("Gear State") && on_head.to_lowercase().contains("enum"),
        "enum-type head hover should name the enum type: {on_head}"
    );
    assert!(
        on_head.contains("Driving") && on_head.contains("Neutral"),
        "enum-type head hover should list the members: {on_head}"
    );
    assert!(
        !on_head.contains("type not modelled"),
        "enum-type head must not fall back to the not-modelled message: {on_head}"
    );
}

#[test]
fn hover_hover_on_enum_type_head_names_the_enum() {
    check_hover_on_enum_type_head_names_the_enum();
}

#[test]
fn mod_hover_on_enum_type_head_names_the_enum() {
    check_hover_on_enum_type_head_names_the_enum();
}


fn check_hover_on_enum_head_that_shadows_a_group_names_the_enum() {
    let project = assi_project("::This.ASSI");
    let md = hover_value_at(&project, "Status = ASSI.Driving;\n", "ASSI", "Control.ASSI.Update.m1scr");
    assert!(
        md.to_lowercase().contains("enum") && md.contains("Driving"),
        "ASSI head should describe the enum, not the shadowing group: {md}"
    );
    assert!(!md.contains("group"), "ASSI head must not resolve to the shadowing group: {md}");
}

#[test]
fn hover_hover_on_enum_head_that_shadows_a_group_names_the_enum() {
    check_hover_on_enum_head_that_shadows_a_group_names_the_enum();
}

#[test]
fn mod_hover_on_enum_head_that_shadows_a_group_names_the_enum() {
    check_hover_on_enum_head_that_shadows_a_group_names_the_enum();
}


fn check_hover_on_enum_head_with_typoed_member_still_names_the_enum() {
    let project = assi_project("::This.ASSI");
    let md = hover_value_at(&project, "Status = ASSI.Drivng;\n", "ASSI", "Control.ASSI.Update.m1scr");
    assert!(
        md.to_lowercase().contains("enum") && md.contains("Driving"),
        "typoed-member head should still describe the enum + members: {md}"
    );
    assert!(md.contains("not a member"), "should flag the bad member: {md}");
    assert!(!md.contains("`group`"), "must not fall back to the shadowing group: {md}");
}

#[test]
fn hover_hover_on_enum_head_with_typoed_member_still_names_the_enum() {
    check_hover_on_enum_head_with_typoed_member_still_names_the_enum();
}

#[test]
fn mod_hover_on_enum_head_with_typoed_member_still_names_the_enum() {
    check_hover_on_enum_head_with_typoed_member_still_names_the_enum();
}


fn check_hover_on_group_name_with_real_child_is_not_hijacked_by_enum() {
    let project = assi_project("u8");
    let md = hover_value_at(&project, "x = Control.ASSI.Status;\n", "Status", "Other.Update.m1scr");
    assert!(
        !md.contains("not a member"),
        "a real group-relative path must not get the enum note: {md}"
    );
}

#[test]
fn hover_hover_on_group_name_with_real_child_is_not_hijacked_by_enum() {
    check_hover_on_group_name_with_real_child_is_not_hijacked_by_enum();
}

#[test]
fn mod_hover_on_group_name_with_real_child_is_not_hijacked_by_enum() {
    check_hover_on_group_name_with_real_child_is_not_hijacked_by_enum();
}


fn check_calibration_only_function_hover_is_labelled() {
    let md = kw_hover("x = Math.Sqrt(a);\n", "Sqrt").unwrap();
    assert!(md.contains("Math.Sqrt"), "{md}");
    assert!(md.to_lowercase().contains("calibration"), "should label calibration-only: {md}");
}

#[test]
fn hover_calibration_only_function_hover_is_labelled() {
    check_calibration_only_function_hover_is_labelled();
}

#[test]
fn mod_calibration_only_function_hover_is_labelled() {
    check_calibration_only_function_hover_is_labelled();
}


fn channel(value_type: ValueType, declared_type: Option<&str>) -> Symbol {
    let mut s = blank_symbol("Root.Demo.X", SymbolKind::Channel);
    s.value_type = value_type;
    s.declared_type = declared_type.map(|d| d.to_string());
    s
}

fn describe(sym: &Symbol, project: Option<&Project>) -> String {
    symbol_markdown(sym, project, &intrinsics())
}

fn check_hover_unknown_with_declared_type_shows_the_declaration() {
    let sym = channel(ValueType::Unknown, Some("MoTeC Types.Direction Enumeration"));
    let md = describe(&sym, None);
    assert!(md.contains("Unknown"), "got: {md}");
    assert!(
        md.contains("declared:") && md.contains("MoTeC Types.Direction Enumeration"),
        "should surface the unresolved declared type: {md}"
    );
}

#[test]
fn hover_hover_unknown_with_declared_type_shows_the_declaration() {
    check_hover_unknown_with_declared_type_shows_the_declaration();
}

#[test]
fn symbol_hover_unknown_with_declared_type_shows_the_declaration() {
    check_hover_unknown_with_declared_type_shows_the_declaration();
}


fn check_hover_unknown_without_declaration_says_not_inferred() {
    let md = describe(&channel(ValueType::Unknown, None), None);
    assert!(md.contains("Unknown"), "got: {md}");
    assert!(
        md.to_lowercase().contains("not inferred") || md.contains("no type declared"),
        "should indicate nothing was declared/inferred: {md}"
    );
    assert!(!md.contains("declared:"), "no declaration to show: {md}");
}

#[test]
fn hover_hover_unknown_without_declaration_says_not_inferred() {
    check_hover_unknown_without_declaration_says_not_inferred();
}

#[test]
fn symbol_hover_unknown_without_declaration_says_not_inferred() {
    check_hover_unknown_without_declaration_says_not_inferred();
}


fn check_hover_known_type_is_unaffected_by_declared_type() {
    let md = describe(&channel(ValueType::Float, Some("f32")), None);
    assert!(md.contains("type: `Float`"), "got: {md}");
    assert!(!md.contains("declared:"), "got: {md}");
    assert!(!md.to_lowercase().contains("not inferred"), "got: {md}");
}

#[test]
fn hover_hover_known_type_is_unaffected_by_declared_type() {
    check_hover_known_type_is_unaffected_by_declared_type();
}

#[test]
fn symbol_hover_known_type_is_unaffected_by_declared_type() {
    check_hover_known_type_is_unaffected_by_declared_type();
}


fn check_hover_shows_security_level() {
    let mut sym = blank_symbol("Root.Engine.Throttle", SymbolKind::Channel);
    sym.value_type = ValueType::Float;
    sym.unit = Some("%".to_string());
    sym.security = Some("Protected".to_string());
    let md = describe(&sym, None);
    assert!(md.contains("security: `Protected`"), "got: {md}");
}

#[test]
fn hover_hover_shows_security_level() {
    check_hover_shows_security_level();
}

#[test]
fn symbol_hover_shows_security_level() {
    check_hover_shows_security_level();
}


fn check_hover_shows_script_call_rate() {
    let mut sym = blank_symbol("Root.Engine.Control", SymbolKind::Method);
    sym.call_rate = Some(rate(100.0));
    let md = describe(&sym, None);
    assert!(md.contains("call rate: `100 Hz`"), "got: {md}");
}

#[test]
fn hover_hover_shows_script_call_rate() {
    check_hover_shows_script_call_rate();
}

#[test]
fn symbol_hover_shows_script_call_rate() {
    check_hover_shows_script_call_rate();
}


fn check_hover_shows_default_log_rate() {
    let mut sym = channel(ValueType::Unsigned, Some("u32"));
    sym.log_rate = Some(rate(200.0));
    let md = describe(&sym, None);
    assert!(md.contains("log rate: `200 Hz`"), "got: {md}");
}

#[test]
fn hover_hover_shows_default_log_rate() {
    check_hover_shows_default_log_rate();
}

#[test]
fn symbol_hover_shows_default_log_rate() {
    check_hover_shows_default_log_rate();
}


fn check_hover_shows_tags() {
    let mut sym = channel(ValueType::Unsigned, Some("u32"));
    sym.tags = vec!["Engine".to_string(), "Normal".to_string()];
    let md = describe(&sym, None);
    assert!(md.contains("tags: `Engine` `Normal`"), "got: {md}");
}

#[test]
fn hover_hover_shows_tags() {
    check_hover_shows_tags();
}

#[test]
fn symbol_hover_shows_tags() {
    check_hover_shows_tags();
}


fn check_object_hover_includes_class_help_summary() {
    let mut sym = channel(ValueType::Unknown, None);
    sym.kind = SymbolKind::Object;
    sym.class = Some("MoTeC Input.Sensor".to_string());
    let md = object_markdown(&sym, &intrinsics()).unwrap();
    assert!(md.contains("class: `MoTeC Input.Sensor`"), "got: {md}");
    assert!(md.contains("require calibration"), "got: {md}");
}

#[test]
fn object_hover_includes_class_help_summary() {
    check_object_hover_includes_class_help_summary();
}


fn check_object_hover_without_capture_doc_shows_class_only() {
    let mut sym = channel(ValueType::Unknown, None);
    sym.kind = SymbolKind::Object;
    sym.class = Some("_IOMethod.av_switch".to_string());
    let md = object_markdown(&sym, &intrinsics()).unwrap();
    assert!(md.contains("class: `_IOMethod.av_switch`"), "got: {md}");
    assert!(!md.contains("\n\n"), "no summary expected: {md}");
}

#[test]
fn object_hover_without_capture_doc_shows_class_only() {
    check_object_hover_without_capture_doc_shows_class_only();
}


fn check_hover_shows_table_shape() {
    let mut sym = blank_symbol("Root.Control.Limiting.Torque", SymbolKind::Table);
    sym.table_meta = Some(TableMeta {
        axes: vec![
            TableAxis { size: 11, unit: Some("A".to_string()) },
            TableAxis { size: 7, unit: Some("rpm".to_string()) },
        ],
        output_unit: Some("N.m".to_string()),
    });
    let md = describe(&sym, None);
    assert!(md.contains("2-D table"), "got: {md}");
    assert!(md.contains("shape: `11 × 7`"), "got: {md}");
    assert!(md.contains("X `A`"), "got: {md}");
    assert!(md.contains("output: `N.m`"), "got: {md}");
}

#[test]
fn hover_hover_shows_table_shape() {
    check_hover_shows_table_shape();
}

#[test]
fn symbol_hover_shows_table_shape() {
    check_hover_shows_table_shape();
}


fn check_hover_shows_dbc_signal_layout() {
    let mut sym = blank_symbol("SBG DBC.Auto Slip.Angle Slip", SymbolKind::Channel);
    sym.value_type = ValueType::Integer;
    sym.unit = Some("deg".to_string());
    sym.filename = Some("dbc/SBG DBC.m1dbc".to_string());
    sym.dbc_range = Some((format!("{:.6}", -51.2), format!("{:.6}", 51.1)));
    sym.can = Some(CanMeta {
        can_id: None,
        dlc: None,
        start_bit: Some(10),
        length: Some(10),
        multiplier: Some(format!("{:.6}", 0.1)),
        offset: Some(format!("{:.6}", 0.0)),
    });
    let md = describe(&sym, None);
    assert!(md.contains("CAN Signal"), "got: {md}");
    assert!(md.contains("Range: `-51.2 – 51.1`"), "got: {md}");
    assert!(md.contains("Scale: `0.1`"), "got: {md}");
    assert!(md.contains("Offset: `0`"), "got: {md}");
    assert!(md.contains("Bit pos: `10`"), "got: {md}");
    assert!(md.contains("Length: `10` bits"), "got: {md}");
    assert!(md.contains("unit: `deg`"), "got: {md}");
}

#[test]
fn hover_hover_shows_dbc_signal_layout() {
    check_hover_shows_dbc_signal_layout();
}

#[test]
fn symbol_hover_shows_dbc_signal_layout() {
    check_hover_shows_dbc_signal_layout();
}


fn check_hover_dbc_signal_shows_parent_message_frame() {
    let project = project_of(
        r#"<?xml version="1.0"?>
<DBC><ComponentStream><List>
 <Component Classname="BuiltIn.CAN.DBC" Name="Bus"/>
 <Component Classname="BuiltIn.CAN.Message" Name="Bus.BMS Status">
  <Props CANId="291" DLC="8"/>
 </Component>
 <Component Classname="BuiltIn.CAN.Signal" Name="Bus.BMS Status.Battery Voltage">
  <Props Type="u32" Qty="V" StartBit="16" Length="16" Multiplier="0.01" Offset="0.0"/>
 </Component>
</List></ComponentStream></DBC>"#,
    );
    let sig = project.get("Bus.BMS Status.Battery Voltage").unwrap();
    let md = describe(sig, Some(&project));
    assert!(md.contains("Message: `BMS Status` (0x123, 8 bytes)"), "got: {md}");
    assert!(md.contains("Scale: `0.01`"), "got: {md}");
    assert!(md.contains("Bit pos: `16`"), "got: {md}");
    assert!(md.contains("unit: `V`"), "got: {md}");
}

#[test]
fn hover_hover_dbc_signal_shows_parent_message_frame() {
    check_hover_dbc_signal_shows_parent_message_frame();
}

#[test]
fn symbol_hover_dbc_signal_shows_parent_message_frame() {
    check_hover_dbc_signal_shows_parent_message_frame();
}


#[test]
fn descriptions_are_exact() {
    let mut sym = channel(ValueType::Float, None);
    sym.unit = Some("V".to_string());
    sym.log_rate = Some(rate(12.5));
    assert_eq!(
        describe(&sym, None),
        "**Root.Demo.X** `channel`\n\ntype: `Float`  ·  unit: `V`  ·  log rate: `12.5 Hz`"
    );
    let mut obj = blank_symbol("Bus.Frame", SymbolKind::Object);
    obj.can = Some(CanMeta {
        can_id: Some(0x1aF),
        dlc: Some(8),
        start_bit: None,
        length: None,
        multiplier: None,
        offset: None,
    });
    assert_eq!(
        describe(&obj, None),
        "**Bus.Frame** `object`\n\nobject\n\nCAN id: `0x1AF`  ·  `8` bytes"
    );
    assert!(object_markdown(&sym, &intrinsics()).is_none());
}

const EVAL: &str = r#"<?xml version="1.0"?>
<Project>
  <Component Classname="BuiltIn.GroupCompound" Name="Root"/>
  <Component Classname="BuiltIn.GroupCompound" Name="Root.Demo"/>
  <Component Classname="BuiltIn.Channel" Name="Root.Demo.Output"><Props Type="f32"/></Component>
  <Component Classname="BuiltIn.Parameter" Name="Root.Demo.Gain"><Props Type="f32"/></Component>
  <Component Classname="BuiltIn.Table" Name="Root.Demo.Map"><Props Type="f32"/></Component>
  <Component Classname="BuiltIn.FuncUser" Name="Root.Demo.Update" Filename="Demo.Update.m1scr"/>
</Project>"#;

const UPDATE: &str = "Demo.Update.m1scr";

/// A run in which the channel had the value 50, described with the label.
fn value_trace(label: &str) -> Trace {
    let mut t = empty_trace();
    t.channel_lines.push((
        "Root.Demo.Output".to_string(),
        format!("\n\nvalue: `50` (@ t=0.02s){label}"),
    ));
    t
}

fn expr_trace(offset: usize) -> Trace {
    let mut t = empty_trace();
    t.expr_lines.push(ExprLine {
        script: UPDATE.to_string(),
        offset,
        line: "\n\nvalue: `7` (@ t=0.02s)".to_string(),
    });
    t
}

fn eval_hover(src: &str, byte: usize, trace: Option<&Trace>, prov: &Provenance, valid: bool) -> String {
    let project = project_of(EVAL);
    let tree = parse(src);
    let scope = scope_of(&tree, Some(&project), Some(UPDATE));
    let ctx = trace.map(|trace| EvalContext {
        trace,
        provenance: prov,
        tick: TickPolicy::Last,
        expr_offsets_valid: valid,
    });
    hover_with_eval(
        &tree,
        byte,
        Some(&project),
        Some(UPDATE),
        &intrinsics(),
        &scope,
        &LineIndex::new(src),
        ENC,
        ctx,
    )
    .expect("hover present")
    .value
}

#[test]
fn scenario_hover_shows_value_alongside_type() {
    let md = eval_hover("Output = 1;\n", 0, Some(&value_trace("")), &scenario(), false);
    assert!(md.contains("`channel`"), "type/symbol info kept: {md}");
    assert!(md.contains("type: `Float`"), "type info kept: {md}");
    assert!(md.contains("value: `50`"), "value line present: {md}");
    assert!(!md.contains("offline default"), "no offline label: {md}");
    assert!(!md.contains("externally driven"), "not external: {md}");
    assert!(
        md.find("type: `Float`").unwrap() < md.find("value: `50`").unwrap(),
        "type shown before value: {md}"
    );
}

#[test]
fn offline_default_hover_shows_value_with_label() {
    let trace = value_trace(" (experimental offline default — no scenario)");
    let md = eval_hover("Output = 1;\n", 0, Some(&trace), &Provenance::OfflineDefault, false);
    assert!(md.contains("value: `50`"), "value shown: {md}");
    assert!(
        md.contains("(experimental offline default — no scenario)"),
        "offline default labelled: {md}"
    );
}

#[test]
fn external_channel_hover_is_labelled() {
    let trace = value_trace(" (externally driven)");
    let md = eval_hover("Output = 1;\n", 0, Some(&trace), &scenario(), false);
    assert!(md.contains("(externally driven)"), "external channel labelled: {md}");
}

#[test]
fn eval_off_hover_equals_pre_eval_baseline() {
    let src = "Output = 1;\n";
    let baseline = eval_hover(src, 0, None, &scenario(), false);
    let project = project_of(EVAL);
    let plain = hover_in(src, 0, Some(&project), Some(UPDATE)).unwrap();
    assert_eq!(baseline, plain, "eval-off path equals plain hover");
    assert!(!baseline.contains("value:"), "no value line when off: {baseline}");
}

#[test]
fn non_value_symbols_get_no_value_line() {
    let trace = value_trace("");
    let prov = Provenance::OfflineDefault;
    let at = |src: &str, find: &str| {
        eval_hover(src, src.find(find).unwrap(), Some(&trace), &prov, false)
    };
    let group_md = at("Demo.Output = 1;\n", "Demo");
    assert!(group_md.contains("`group`"), "is a group: {group_md}");
    assert!(!group_md.contains("value:"), "group has no value: {group_md}");
    let table_md = at("x = Demo.Map;\n", "Map");
    assert!(!table_md.contains("value:"), "table has no value: {table_md}");
    let param_md = at("x = Demo.Gain;\n", "Gain");
    assert!(!param_md.contains("value:"), "param has no column: {param_md}");
}

const USE: &str = "local x = 0;\nOutput = x;\n";

fn use_byte() -> usize {
    USE.match_indices('x').nth(1).unwrap().0
}

#[test]
fn expr_occurrence_with_recorded_value_shows_it() {
    let md = eval_hover(USE, use_byte(), Some(&expr_trace(use_byte())), &scenario(), true);
    assert!(md.contains("value: `7`"), "expr value shown: {md}");
    assert!(md.contains("(@ t=0.02s)"), "expr tick time shown: {md}");
    assert!(md.contains("`local`"), "local info kept: {md}");
    assert!(
        md.find("`local`").unwrap() < md.find("value: `7`").unwrap(),
        "symbol info before value: {md}"
    );
}

#[test]
fn expr_occurrence_with_no_recorded_value_leaves_hover_unchanged() {
    let trace = expr_trace(use_byte() + 100);
    let with_eval = eval_hover(USE, use_byte(), Some(&trace), &scenario(), true);
    assert!(!with_eval.contains("value:"), "no value line on a miss: {with_eval}");
    let project = project_of(EVAL);
    let baseline = hover_in(USE, use_byte(), Some(&project), Some(UPDATE)).unwrap();
    assert_eq!(with_eval, baseline, "a miss leaves the hover unchanged");
}

#[test]
fn expr_hover_skipped_when_buffer_offsets_invalid() {
    let md = eval_hover(USE, use_byte(), Some(&expr_trace(use_byte())), &scenario(), false);
    assert!(!md.contains("value:"), "expr value suppressed when offsets are invalid: {md}");
}

#[test]
fn channel_value_wins_over_expr_value_no_double_line() {
    let mut trace = value_trace("");
    trace.expr_lines = expr_trace(0).expr_lines;
    let md = eval_hover("Output = 1;\n", 0, Some(&trace), &scenario(), true);
    assert!(md.contains("value: `50`"), "channel value shown: {md}");
    assert!(!md.contains("value: `7`"), "expr value not added: {md}");
    assert_eq!(md.matches("value:").count(), 1, "exactly one value line: {md}");
}

// ---------------------------------------------------------------------------
// Code actions
// ---------------------------------------------------------------------------

const HERE: &str = "file:///t.m1scr";

fn actions_for(src: &str, diags: &Vec<Diagnostic>, project: Option<&Project>) -> Vec<CodeAction> {
    code_actions(&LineIndex::new(src), ENC, HERE, &parse(src), diags, project)
}

fn coded(src: &str, needle: &str, code: &str, message: &str) -> Diagnostic {
    let li = LineIndex::new(src);
    let start = src.find(needle).unwrap();
    Diagnostic {
        range: Range {
            start: li.position(start, ENC),
            end: li.position(start + needle.len(), ENC),
        },
        code: Some(code.to_string()),
        message: message.to_string(),
    }
}

fn diag_for(src: &str, op: &str) -> Diagnostic {
    coded(src, op, "unsupported-c-token", "nope")
}

fn lint_diag(src: &str, substr: &str, code: &str) -> Diagnostic {
    coded(src, substr, code, "lint")
}

fn edits_of(a: &CodeAction) -> &Vec<TextEdit> {
    let changes = a.edit.changes.as_ref().unwrap();
    assert_eq!(changes[0].0, HERE);
    &changes[0].1
}

fn action_edits<'a>(actions: &'a [CodeAction], title: &str) -> Option<&'a Vec<TextEdit>> {
    actions.iter().find(|a| a.title == title).map(edits_of)
}

/// The text after edits that do not overlap.
fn apply(src: &str, edits: &[TextEdit]) -> String {
    let li = LineIndex::new(src);
    let mut spans: Vec<(usize, usize, String)> = edits
        .iter()
        .map(|e| {
            (li.offset(e.range.start, ENC), li.offset(e.range.end, ENC), e.new_text.clone())
        })
        .collect();
    spans.sort_by(|a, b| b.0.cmp(&a.0).then(b.1.cmp(&a.1)));
    let mut out = src.to_string();
    for (s, e, t) in spans {
        out.replace_range(s..e, &t);
    }
    out
}

fn sel(src: &str, needle: &str) -> Range {
    let li = LineIndex::new(src);
    let s = src.find(needle).unwrap();
    Range { start: li.position(s, ENC), end: li.position(s + needle.len(), ENC) }
}

fn cursor(src: &str, needle: &str) -> Range {
    let p = LineIndex::new(src).position(src.find(needle).unwrap(), ENC);
    Range { start: p, end: p }
}

fn refactors_for(src: &str, range: Range) -> Vec<CodeAction> {
    refactors(&parse(src), &LineIndex::new(src), ENC, HERE, range)
}

fn fix(src: &str, op: &str) -> Option<String> {
    let actions = actions_for(src, &vec![diag_for(src, op)], None);
    let a = actions.first()?;
    Some(apply(src, &edits_of(a)[..1]))
}

fn titles(src: &str, diags: Vec<Diagnostic>) -> Vec<String> {
    actions_for(src, &diags, None).into_iter().map(|a| a.title).collect()
}

#[test]
fn extract_local_introduces_named_intermediate() {
    let src = "Demo.Widget Count = (Demo.Raw Value - Demo.Offset) * Demo.Scale Factor;\n\
               Demo.Mode Output = (Demo.Raw Value - Demo.Offset) * Demo.Scale Factor;\n";
    let range = sel(src, "(Demo.Raw Value - Demo.Offset) * Demo.Scale Factor");
    let actions = refactors_for(src, range);
    let edits = action_edits(&actions, "Extract to local")
        .expect("an Extract to local action should be offered");
    let out = apply(src, edits);
    assert_eq!(
        out,
        "local myValue = (Demo.Raw Value - Demo.Offset) * Demo.Scale Factor;\n\
         Demo.Widget Count = myValue;\n\
         Demo.Mode Output = myValue;\n",
        "got:\n{out}"
    );
}

#[test]
fn extract_local_takes_a_name_that_is_free() {
    let src = "local myValue = 1;\nlocal myValue2 = 2;\n\tOut = a + b;\n";
    let actions = refactors_for(src, sel(src, " a + b"));
    let edits = action_edits(&actions, "Extract to local").unwrap();
    assert_eq!(
        apply(src, edits),
        "local myValue = 1;\nlocal myValue2 = 2;\n\tlocal myValue3 = a + b;\n\tOut = myValue3;\n"
    );
    assert_eq!(actions[0].kind, CodeActionKind::RefactorExtract);
    // What is assigned to is no value.
    assert!(action_edits(&refactors_for(src, sel(src, "Out")), "Extract to local").is_none());
}

#[test]
fn extract_local_not_offered_without_a_selection() {
    let src = "Demo.Out = (a - b) * c;\n";
    let actions = refactors_for(src, cursor(src, "(a - b)"));
    assert!(
        action_edits(&actions, "Extract to local").is_none(),
        "extract must require a non-empty selection"
    );
}

#[test]
fn inline_local_replaces_uses_and_deletes_declaration() {
    let src = "local myValue = Demo.Sensor Value * 2.0;\n\
               Demo.Widget Count = myValue;\n\
               Demo.Mode Output = myValue + 1;\n";
    let actions = refactors_for(src, cursor(src, "myValue"));
    let edits =
        action_edits(&actions, "Inline local").expect("an Inline local action should be offered");
    let out = apply(src, edits);
    assert_eq!(
        out,
        "Demo.Widget Count = Demo.Sensor Value * 2.0;\n\
         Demo.Mode Output = Demo.Sensor Value * 2.0 + 1;\n",
        "got:\n{out}"
    );
}

#[test]
fn inline_local_refused_when_reassigned() {
    let src = "local myValue = 0;\n\
               myValue = myValue + 1;\n\
               Demo.Out = myValue;\n";
    let actions = refactors_for(src, cursor(src, "local myValue"));
    assert!(
        action_edits(&actions, "Inline local").is_none(),
        "a reassigned local must not be inlinable"
    );
    let actions = refactors_for(src, cursor(src, "myValue"));
    assert!(action_edits(&actions, "Inline local").is_none());
}

#[test]
fn nearest_enum_member_prefers_case_then_edit_distance() {
    let members = vec![
        ("Off".to_string(), 0i64),
        ("On".to_string(), 1),
        ("Driving".to_string(), 2),
    ];
    assert_eq!(nearest_enum_member("OFf", &members).as_deref(), Some("Off"));
    assert_eq!(nearest_enum_member("Of", &members).as_deref(), Some("Off"));
    assert_eq!(
        nearest_enum_member("Drivng", &members).as_deref(),
        Some("Driving")
    );
    assert_eq!(nearest_enum_member("Xyzzy", &members), None);
    assert_eq!(nearest_enum_member("On", &members).as_deref(), Some("On"));
}

#[test]
fn spaces_tight_operator() {
    assert_eq!(fix("x = a==b;\n", "==").unwrap(), "x = a eq b;\n");
}

#[test]
fn l016_offers_rename_to_corrected_local_name() {
    let src = "local Count = 0;\nCount = Count + 1;\n";
    let actions = actions_for(src, &vec![lint_diag(src, "Count", "L016")], None);
    let action = actions
        .iter()
        .find(|a| a.title.contains("count"))
        .expect("an L016 rename quick-fix should be offered");
    assert_eq!(action.is_preferred, Some(true));
    assert_eq!(action.diagnostic, Some(0));
    let edits = edits_of(action);
    assert_eq!(edits.len(), 3, "all occurrences renamed: {edits:?}");
    assert!(edits.iter().all(|e| e.new_text == "count"));
}

#[test]
fn missing_semicolon_offers_insert_quickfix() {
    let src = "x = 1\n";
    let pos = LineIndex::new(src).position(5, ENC);
    let d = Diagnostic {
        range: Range { start: pos, end: pos },
        code: Some("missing-token".to_string()),
        message: "missing ;".to_string(),
    };
    let actions = actions_for(src, &vec![d], None);
    let action = actions
        .iter()
        .find(|a| a.title.contains(';'))
        .expect("a quick-fix inserting `;` should be offered");
    let edit = &edits_of(action)[0];
    assert_eq!(edit.new_text, ";");
    let s = apply(src, edits_of(action));
    assert_eq!(s, "x = 1;\n");
    assert_eq!(parse_all(&s).1, 0);
}

#[test]
fn keeps_existing_spacing() {
    assert_eq!(fix("x = a && b;\n", "&&").unwrap(), "x = a and b;\n");
}

#[test]
fn l004_lint_diagnostic_offers_operator_fix() {
    let src = "x = a == b;\n";
    assert!(
        titles(src, vec![lint_diag(src, "==", "L004")])
            .iter()
            .any(|t| t == "Replace `==` with `eq`"),
        "L004 should offer the eq fix"
    );
}

#[test]
fn l002_offers_and_applies_trailing_whitespace_removal() {
    let src = "x = 1;  \n";
    let actions = actions_for(src, &vec![lint_diag(src, "  ", "L002")], None);
    let a = &actions[0];
    assert_eq!(a.title, "Remove trailing whitespace");
    assert_eq!(apply(src, edits_of(a)), "x = 1;\n");
}

#[test]
fn bulk_fix_all_offered_for_multiple_l004() {
    let src = "x = a == b;\ny = c == d;\n";
    let li = LineIndex::new(src);
    let first = src.find("==").unwrap();
    let second = src[first + 2..].find("==").unwrap() + first + 2;
    let mk = |at: usize| Diagnostic {
        range: Range { start: li.position(at, ENC), end: li.position(at + 2, ENC) },
        code: Some("L004".to_string()),
        message: String::new(),
    };
    let ts = titles(src, vec![mk(first), mk(second)]);
    assert!(
        ts.iter().any(|t| t == "Fix all L004 in file"),
        "expected a bulk fix, got {ts:?}"
    );
    // One alone needs no fix of all.
    assert!(!titles(src, vec![mk(first)]).iter().any(|t| t == "Fix all L004 in file"));
}

#[test]
fn loop_keyword_offers_whenstatement_template() {
    let src = "    for i = 0 to 9 {\n";
    let li = LineIndex::new(src);
    let d = Diagnostic {
        range: Range { start: li.position(4, ENC), end: li.position(7, ENC) },
        code: Some("unsupported-c-token".to_string()),
        message: "nope".to_string(),
    };
    let actions = actions_for(src, &vec![d], None);
    let a = &actions[0];
    assert_eq!(a.title, "Insert WhenStatement template");
    let edit = &edits_of(a)[0];
    assert!(edit.new_text.contains("When State.Phase"));
    assert!(edit.new_text.contains("not supported in M1"));
    assert!(edit.new_text.starts_with("    --"), "got: {:?}", edit.new_text);
    assert_eq!(
        edit.new_text,
        "    -- TODO: `for` is not supported in M1 — rewrite as a WhenStatement\n    When State.Phase {\n        Is Phase.Init: -- …\n    }\n"
    );
}

#[test]
fn bang_becomes_not() {
    assert_eq!(fix("x = !flag;\n", "!").unwrap(), "x = not flag;\n");
}

#[test]
fn while_offers_only_the_whenstatement_template() {
    let src = "while (1) {}\n";
    let actions = actions_for(src, &vec![diag_for(src, "while")], None);
    assert_eq!(actions.len(), 1);
    assert_eq!(actions[0].title, "Insert WhenStatement template");
}

#[test]
fn works_after_multibyte_char() {
    assert_eq!(fix("x = café==b;\n", "==").unwrap(), "x = café eq b;\n");
}

#[test]
fn off_boundary_range_is_skipped_not_panicked() {
    let src = "𝄞==b;\n";
    let d = Diagnostic {
        range: Range {
            start: Position { line: 0, character: 2 },
            end: Position { line: 0, character: 4 },
        },
        code: Some("unsupported-c-token".to_string()),
        message: String::new(),
    };
    let li = LineIndex::new(src);
    let got = code_actions(&li, PositionEncoding::Utf8, HERE, &parse(src), &vec![d], None);
    assert!(got.is_empty());
}

#[test]
fn fix_all_action_replaces_the_whole_document() {
    let text = "//x\n";
    let li = LineIndex::new(text);
    let a = fix_all_lint_action(HERE, &li, ENC, "// x\n".to_string());
    assert_eq!(a.kind, CodeActionKind::SourceFixAll);
    let edit = &edits_of(&a)[0];
    assert_eq!(edit.new_text, "// x\n");
    assert_eq!(edit.range.start, Position { line: 0, character: 0 });
    assert_eq!(edit.range.end, Position { line: 1, character: 0 });
    let f = format_action("Format Document", HERE, Vec::new());
    assert_eq!(f.kind, CodeActionKind::Source);
    assert_eq!(f.is_preferred, None);
}

#[test]
fn t020_offers_nearest_enum_member_quickfix() {
    let project = project_of(
        r#"<?xml version="1.0"?>
<Project>
  <DataTypes>
    <Type Name="Drive State" Storage="enum" Default="Off">
      <Enum Name="Off" ContainerOrder="0"/>
      <Enum Name="On" ContainerOrder="1"/>
    </Type>
  </DataTypes>
  <Component Classname="BuiltIn.GroupCompound" Name="Root"/>
</Project>"#,
    );
    let src = "x = Drive State.Of;\n";
    let d = coded(src, "Drive State.Of", "T020", "");
    let actions = actions_for(src, &vec![d], Some(&project));
    let fix = actions
        .iter()
        .find(|a| a.title == "Replace `Of` with `Off`")
        .expect("expected a did-you-mean fix");
    assert_eq!(apply(src, edits_of(fix)), "x = Drive State.Off;\n");
}

fn suppressed(src: &str, needle: &str, code: &str) -> Option<String> {
    let actions = actions_for(src, &vec![coded(src, needle, code, "finding")], None);
    let title = format!("Suppress {code} for this statement");
    let a = actions.iter().find(|a| a.title == title)?;
    assert_eq!(a.is_preferred, Some(false));
    Some(apply(src, edits_of(a)))
}

#[test]
fn suppress_inserts_annotation_above_statement() {
    let out = suppressed("x = 1;\ny    = 2;\n", "y", "L007").unwrap();
    assert_eq!(out, "x = 1;\n// @m1:allow(L007)\ny    = 2;\n");
}

#[test]
fn suppress_matches_block_indentation() {
    let src = "if (a)\n{\n\ty = 2;\n}\n";
    let out = suppressed(src, "y", "T030").unwrap();
    assert_eq!(out, "if (a)\n{\n\t// @m1:allow(T030)\n\ty = 2;\n}\n");
}

#[test]
fn suppress_appends_to_existing_allow_line() {
    let src = "// @m1:allow(L010)\ny = 2;\n";
    let out = suppressed(src, "y", "L007").unwrap();
    assert_eq!(out, "// @m1:allow(L010, L007)\ny = 2;\n");
}

#[test]
fn suppress_not_offered_when_code_already_listed() {
    assert!(suppressed("// @m1:allow(L007)\ny = 2;\n", "y", "L007").is_none());
}

#[test]
fn suppress_not_offered_on_comment_lines() {
    assert!(suppressed("// some very long comment\nx = 1;\n", "long", "L001").is_none());
}

#[test]
fn suppress_not_offered_for_second_statement_on_a_line() {
    assert!(suppressed("x = 1; y = 2;\n", "y = 2", "L021").is_none());
}

#[test]
fn suppress_not_offered_for_syntax_codes() {
    let src = "x == 1;\n";
    let actions = actions_for(src, &vec![diag_for(src, "==")], None);
    assert!(action_edits(&actions, "Suppress unsupported-c-token for this statement").is_none());
}

// ---------------------------------------------------------------------------
// Completion
// ---------------------------------------------------------------------------

fn complete(project: Option<&Project>, file: Option<&str>, src: &str, byte: usize) -> Vec<CompletionItem> {
    let tree = parse(src);
    let group = match (project, file) {
        (Some(p), Some(f)) => group_for_script(p, f),
        _ => None,
    };
    let mut resolutions = Vec::new();
    if let Some(lhs) = assignment_lhs(src, byte) {
        let r = resolve(&lhs, &[], group.as_deref(), project);
        resolutions.push((lhs, r));
    }
    let targets = Scope { locals: Vec::new(), group, resolutions, types: Vec::new() };
    completions(&tree, project, &targets, src, byte, &LineIndex::new(src), ENC, &intrinsics())
}

fn item_labels(items: &[CompletionItem]) -> Vec<&str> {
    items.iter().map(|i| i.label.as_str()).collect()
}

const GLONK: &str = r#"<?xml version="1.0"?>
<Project>
  <Component Classname="BuiltIn.GroupCompound" Name="Root"/>
  <Component Classname="BuiltIn.ChannelMeasure" Name="Root.Speed Glonk"/>
</Project>"#;

#[test]
fn includes_locals_and_project_symbols() {
    let project = project_of(GLONK);
    let src = "local fGain = 1.0;\n";
    let items = complete(Some(&project), Some("X.m1scr"), src, src.len());
    let labels = item_labels(&items);
    assert!(labels.contains(&"fGain"));
    assert!(labels.iter().any(|l| l.contains("Speed Glonk")));
}

#[test]
fn in_scope_locals_rank_before_project_symbols_and_keywords() {
    let project = project_of(GLONK);
    let src = "local fGain = 1.0;\n";
    let items = complete(Some(&project), Some("X.m1scr"), src, src.len());
    let sort = |wanted: &dyn Fn(&CompletionItem) -> bool| -> String {
        items
            .iter()
            .find(|i| wanted(i))
            .and_then(|i| i.sort_text.clone())
            .expect("item with sort_text")
    };
    let local = sort(&|i| i.label == "fGain");
    let sym = sort(&|i| i.label.contains("Speed Glonk"));
    let lib = sort(&|i| i.kind == CompletionItemKind::Module);
    let kw = sort(&|i| i.kind == CompletionItemKind::Keyword);
    assert!(local < sym, "local {local:?} should rank before symbol {sym:?}");
    assert!(sym < kw, "symbol {sym:?} should rank before keyword {kw:?}");
    assert!(sym < lib && lib < kw);
}

#[test]
fn dbc_message_dot_completion_offers_its_signals() {
    let project = project_of(
        r#"<?xml version="1.0"?>
<DBC>
 <ComponentStream><List>
  <Component Classname="BuiltIn.CAN.DBC" Name="Sensors"/>
  <Component Classname="BuiltIn.CAN.Message" Name="Sensors.Demo Frame"><Props CANId="100" DLC="4"/></Component>
  <Component Classname="BuiltIn.CAN.Signal" Name="Sensors.Demo Frame.Widget Count"><Props Type="u16" Qty="count" StartBit="0" Length="16"/></Component>
  <Component Classname="BuiltIn.CAN.Signal" Name="Sensors.Demo Frame.Mode Raw"><Props Type="u16" StartBit="16" Length="16"/></Component>
 </List></ComponentStream>
</DBC>"#,
    );
    let src = "local v = Sensors.Demo Frame.\n";
    let byte = src.find("Frame.").unwrap() + "Frame.".len();
    let items = complete(Some(&project), Some("Read.m1scr"), src, byte);
    let labels = item_labels(&items);
    assert!(
        labels.contains(&"Widget Count") && labels.contains(&"Mode Raw"),
        "DBC message dot-completion should offer its signals; got {labels:?}"
    );
    assert!(
        !labels.iter().any(|l| l.contains("Sensors.Demo Frame")),
        "members should be bare leaf names, not full paths; got {labels:?}"
    );
    assert_eq!(items[0].detail.as_deref(), Some("Unsigned · count"));
}

#[test]
fn offers_enum_members_on_assignment_rhs() {
    let project = project_of(
        r#"<?xml version="1.0"?>
<Project>
  <DataTypes>
    <Type Name="Gear State" Storage="enum" Default="Neutral">
      <Enum Name="Neutral" ContainerOrder="0"/>
      <Enum Name="First" ContainerOrder="1"/>
    </Type>
  </DataTypes>
  <Component Classname="BuiltIn.Channel" Name="Root.Transmission.Gear"><Props Type="::This.Gear State"/></Component>
</Project>"#,
    );
    let src = "Root.Transmission.Gear = \n";
    let items = complete(Some(&project), Some("X.m1scr"), src, src.find('\n').unwrap());
    let labels = item_labels(&items);
    assert!(labels.contains(&"Gear State.Neutral"), "got {labels:?}");
    assert!(labels.contains(&"Gear State.First"));
    assert!(!labels.contains(&"if"), "should not offer keywords");
    assert_eq!(items[1].detail.as_deref(), Some("= 1"));
    // A comparison is no assignment.
    let src = "x = Root.Transmission.Gear == \n";
    assert_eq!(assignment_lhs(src, src.find('\n').unwrap()), None);
}

#[test]
fn offers_enum_members_for_bare_in_group_lhs() {
    let project = project_of(
        r#"<?xml version="1.0"?>
<Project>
  <DataTypes>
    <Type Name="Drive State" Storage="enum" Default="Idle">
      <Enum Name="Idle" ContainerOrder="0"/>
      <Enum Name="Latching Fault" ContainerOrder="1"/>
    </Type>
  </DataTypes>
  <Component Classname="BuiltIn.GroupCompound" Name="Root"/>
  <Component Classname="BuiltIn.GroupCompound" Name="Root.Control"/>
  <Component Classname="BuiltIn.Channel" Name="Root.Control.Value"><Props Type="::This.Drive State"/></Component>
  <Component Classname="BuiltIn.MethodUser" Name="Root.Control.Update"/>
</Project>"#,
    );
    let src = "Value = \n";
    let byte = src.find('\n').unwrap();
    let items = complete(Some(&project), Some("Control.Update.m1scr"), src, byte);
    let labels = item_labels(&items);
    assert!(
        labels.contains(&"Drive State.Idle"),
        "bare in-group LHS should offer enum members, got {labels:?}"
    );
    assert!(labels.contains(&"Drive State.Latching Fault"));
    assert!(!labels.contains(&"if"), "should not fall back to the global dump");
}

const DEEP: &str = r#"<?xml version="1.0"?>
<Project>
  <Component Classname="BuiltIn.GroupCompound" Name="Root"/>
  <Component Classname="BuiltIn.GroupCompound" Name="Root.Control"/>
  <Component Classname="BuiltIn.GroupCompound" Name="Root.Control.AV"/>
  <Component Classname="BuiltIn.GroupCompound" Name="Root.Control.AV.DFMM"/>
  <Component Classname="BuiltIn.Channel" Name="Root.Control.AV.DFMM.Checkup"/>
</Project>"#;

#[test]
fn dotted_path_completion_replaces_typed_prefix() {
    let project = project_of(DEEP);
    let src = "Control.AV.";
    let byte = src.len();
    let items = complete(Some(&project), Some("X.m1scr"), src, byte);
    let item = items
        .iter()
        .find(|i| i.label == "Control.AV.DFMM.Checkup")
        .unwrap_or_else(|| panic!("expected Root-stripped path label, got {:?}", item_labels(&items)));
    assert!(
        !items.iter().any(|i| i.label == "Root.Control.AV.DFMM.Checkup"),
        "the full-Root label must be replaced by the stripped form"
    );
    let edit = item.text_edit.as_ref().expect("completion must carry a text_edit");
    assert_eq!(edit.new_text, "Control.AV.DFMM.Checkup", "text_edit must insert the clean path");
    assert_eq!(edit.range.start.line, 0);
    assert_eq!(edit.range.start.character, 0, "edit must start at the chain head");
    assert_eq!(edit.range.end.character, byte as u32);
    assert!(
        item.filter_text.as_deref().unwrap_or(&item.label) == "Control.AV.DFMM.Checkup",
        "filter_text should be the stripped path"
    );
}

#[test]
fn mid_chain_completion_replaces_whole_chain() {
    let project = project_of(DEEP);
    let src = "local v = Driveline.Accumulator.Voltage;\n";
    let byte = src.find("Driveline.A").unwrap() + "Driveline.A".len();
    let chain_start = src.find("Driveline").unwrap();
    let chain_end = src.find(';').unwrap();
    let items = complete(Some(&project), Some("X.m1scr"), src, byte);
    let item = items
        .iter()
        .find(|i| i.label == "Control.AV.DFMM.Checkup")
        .expect("project symbol should be offered mid-chain");
    let edit = item.text_edit.as_ref().expect("completion must carry a text_edit");
    assert_eq!(
        edit.range.start.character, chain_start as u32,
        "edit must start at the chain head"
    );
    assert_eq!(
        edit.range.end.character, chain_end as u32,
        "edit must end at the chain tail, not the cursor"
    );
    let mut applied = String::new();
    applied.push_str(&src[..chain_start]);
    applied.push_str(&edit.new_text);
    applied.push_str(&src[chain_end..]);
    assert_eq!(
        applied, "local v = Control.AV.DFMM.Checkup;\n",
        "accepting must replace the whole chain, got {applied:?}"
    );
    assert!(
        !applied.contains("ccumulator"),
        "no orphaned suffix may survive, got {applied:?}"
    );
}

#[test]
fn no_completion_inside_comments_and_strings() {
    let project = project_of(GLONK);
    let comp = |src: &str, byte: usize| complete(Some(&project), Some("X.m1scr"), src, byte);
    let line_c = "// some Calc note\n";
    let block_c = "/* some Calc note */\n";
    let string_l = "local s = \"some Calc text\";\n";
    let code = "local x = \n";
    assert!(
        comp(line_c, line_c.find("Calc").unwrap() + 2).is_empty(),
        "no completion inside a line comment"
    );
    assert!(
        comp(block_c, block_c.find("Calc").unwrap() + 2).is_empty(),
        "no completion inside a block comment"
    );
    assert!(
        comp(string_l, string_l.find("Calc").unwrap() + 2).is_empty(),
        "no completion inside a string literal"
    );
    assert!(
        !comp(code, code.find('\n').unwrap()).is_empty(),
        "completion still fires in normal code"
    );
}

#[test]
fn parameter_completion_shows_type_and_unit_from_cfg() {
    let mut project = project_of(
        r#"<?xml version="1.0"?>
<Project>
  <Component Classname="BuiltIn.GroupCompound" Name="Root.Foo"/>
  <Component Classname="BuiltIn.Parameter" Name="Root.Foo.Gain.Value"><Props/></Component>
</Project>"#,
    );
    // What the configuration says of the parameter.
    project.symbols[1].value_type = ValueType::Unsigned;
    project.symbols[1].unit = Some("ratio".to_string());
    let items = complete(Some(&project), Some("X.m1scr"), "\n", 1);
    let item = items
        .iter()
        .find(|i| i.label == "Foo.Gain.Value")
        .expect("parameter should be offered");
    let detail = item.detail.as_deref().unwrap_or("");
    assert!(
        detail.contains("Unsigned") && detail.contains("ratio"),
        "completion detail should carry the cfg type + unit, got: {detail:?}"
    );
}

#[test]
fn calibration_only_objects_not_offered_in_completion() {
    let items = complete(None, Some("X.m1scr"), "\n", 0);
    let labels = item_labels(&items);
    assert!(labels.contains(&"Calculate"), "ECU object offered: {labels:?}");
    assert!(labels.contains(&"System"), "System offered (has ECU functions)");
    assert!(labels.contains(&"Math"), "Math offered (has ECU functions like fabs)");
    assert!(!labels.contains(&"UI"), "UI is calibration-only");
}

#[test]
fn calibration_only_methods_filtered_after_dot() {
    let src = "x = System.\n";
    let byte = src.find("System.").unwrap() + "System.".len();
    let items = complete(None, None, src, byte);
    let labels = item_labels(&items);
    assert!(labels.contains(&"Preserve"), "ECU System.Preserve offered: {labels:?}");
    assert!(labels.contains(&"Debug"), "ECU System.Debug offered");
    assert!(!labels.contains(&"StrCat"), "StrCat is calibration-only: {labels:?}");
}

#[test]
fn completes_library_methods_after_dot() {
    let src = "x = Calculate.\n";
    let byte = src.find("Calculate.").unwrap() + "Calculate.".len();
    let items = complete(None, None, src, byte);
    let labels = item_labels(&items);
    assert!(labels.contains(&"Max"), "Calculate.Max should be offered: {labels:?}");
    assert!(labels.contains(&"Min"));
    assert!(!labels.contains(&"if"));
    let max = items.iter().find(|i| i.label == "Max").unwrap();
    assert!(max.is_snippet, "Max should be a snippet");
    let snip = max.insert_text.as_deref().unwrap_or("");
    assert!(
        snip.starts_with("Max(") && snip.contains("${1:"),
        "expected placeholder snippet, got {snip:?}"
    );
    assert_eq!(snip, "Max(${1:a}, ${2:b})");
    assert_eq!(max.detail.as_deref(), Some("(a, b) -> Float"));
}

#[test]
fn offers_objects_and_keywords_at_top_level() {
    let src = "x = \n";
    let items = complete(None, None, src, src.len());
    let labels = item_labels(&items);
    assert!(labels.contains(&"Calculate"), "library object offered");
    assert!(labels.contains(&"if"), "keyword offered");
}

#[test]
fn construct_keywords_carry_a_snippet_body() {
    let src = "x = \n";
    let items = complete(None, None, src, src.len());
    let if_item = items.iter().find(|i| i.label == "if").expect("`if` offered");
    assert!(if_item.is_snippet);
    let body = if_item.insert_text.as_deref().unwrap_or("");
    assert!(body.starts_with("if (") && body.contains("${1:"), "got {body:?}");
    let when_item = items.iter().find(|i| i.label == "when").unwrap();
    assert!(
        when_item.insert_text.as_deref().unwrap_or("").contains("is (${2:"),
        "when expands to a when…is skeleton"
    );
}

// ---------------------------------------------------------------------------
// Definitions
// ---------------------------------------------------------------------------

#[test]
fn goto_local_returns_its_declaration_in_file() {
    let src = "local myValue = 0;\nmyValue = myValue + 1;\n";
    let tree = parse(src);
    let li = LineIndex::new(src);
    let uri = "file:///x.m1scr";
    let use_byte = src.find("myValue = myValue").unwrap();
    let loc = goto_local(&tree, use_byte, uri, &li, ENC)
        .expect("a local use should resolve to its declaration");
    assert_eq!(loc.uri, uri);
    assert_eq!(loc.range.start.line, 0, "declaration is on line 0");
    let decl_byte = src.find("myValue").unwrap();
    assert!(
        goto_local(&tree, decl_byte, uri, &li, ENC).is_some(),
        "goto on the declaration should also resolve"
    );
}

#[test]
fn goto_local_takes_the_nearest_declaration() {
    let src = "x = 1;\nlocal x = 1;\ny = x;\nlocal x = 2;\ny = x;\n";
    let tree = parse(src);
    let li = LineIndex::new(src);
    let at = |byte: usize| {
        goto_local(&tree, byte, "file:///x.m1scr", &li, ENC).map(|l| l.range.start.line)
    };
    assert_eq!(at(0), Some(1), "before every declaration: the first");
    assert_eq!(at(src.find("y = x").unwrap() + 4), Some(1));
    assert_eq!(at(src.rfind("y = x").unwrap() + 4), Some(3));
}

#[test]
fn goto_local_ignores_dotted_paths() {
    let src = "Root.Speed = 1.0;\n";
    assert!(
        goto_local(&parse(src), 0, "file:///x.m1scr", &LineIndex::new(src), ENC).is_none(),
        "a dotted path is not a local"
    );
}

fn goto_in(st: &Store, src: &str, file: &str) -> Option<Location> {
    let tree = parse(src);
    let scope = scope_of(&tree, Some(st.project()), Some(file));
    goto(&tree, 0, &st.loaded, &scope)
}

#[test]
fn goto_dbc_object_returns_its_m1dbc_file() {
    let mut st = store(
        r#"<?xml version="1.0"?>
<DBC><ComponentStream><List>
  <Component Classname="BuiltIn.CAN.DBC" Name="Balls3EV25"/>
  <Component Classname="BuiltIn.CAN.Message" Name="Balls3EV25.DashVals"/>
  <Component Classname="BuiltIn.CAN.Signal" Name="Balls3EV25.DashVals.Inverter Error"><Props Type="u32"/></Component>
</List></ComponentStream></DBC>"#,
        &[],
    );
    for s in st.loaded.project.symbols.iter_mut() {
        s.filename = Some("dbc/Balls3EV25.m1dbc".to_string());
    }
    let loc = goto_in(&st, "Balls3EV25.DashVals.Inverter Error = 1;\n", "CAN.DBC Init.m1scr")
        .expect("DBC signal should resolve to its .m1dbc file");
    assert!(loc.uri.ends_with("Balls3EV25.m1dbc"), "got {}", loc.uri);
}

#[test]
fn goto_func_returns_its_file() {
    let st = store(
        r#"<?xml version="1.0"?>
<Project>
  <Component Classname="BuiltIn.GroupCompound" Name="Root"/>
  <Component Classname="BuiltIn.FuncUser" Name="Root.Do Thing" Filename="Do Thing.m1scr"/>
</Project>"#,
        &[],
    );
    let loc = goto_in(&st, "Do Thing();\n", "Caller.m1scr").expect("function should resolve to its file");
    assert_eq!(loc.uri, "file:///proj/Do%20Thing.m1scr");
    assert_eq!(loc.range.start.line, 0);
}

#[test]
fn goto_channel_returns_m1prj_at_definition_line() {
    let xml = "<?xml version=\"1.0\"?>\n<Project>\n  <Component Classname=\"BuiltIn.GroupCompound\" Name=\"Root\"/>\n  <Component Classname=\"BuiltIn.Channel\" Name=\"Root.Speed\"><Props Type=\"f32\"/></Component>\n</Project>";
    let st = store(xml, &[]);
    let loc = goto_in(&st, "Root.Speed = 1.0;\n", "X.m1scr")
        .expect("channel should resolve to the .m1prj");
    assert!(loc.uri.ends_with("Project.m1prj"), "got {}", loc.uri);
    assert_eq!(loc.range.start.line, 3, "should point at the declaration line");
}

#[test]
fn type_definition_jumps_to_enum_type_block() {
    let xml = "<?xml version=\"1.0\"?>\n<Project>\n  <DataTypes>\n    <Type Name=\"Color\" Storage=\"enum\"><Enum Name=\"Red\" ContainerOrder=\"1\"/></Type>\n  </DataTypes>\n  <Component Classname=\"BuiltIn.GroupCompound\" Name=\"Root\"/>\n  <Component Classname=\"BuiltIn.Channel\" Name=\"Root.Mode\"><Props Type=\"::This.Color\"/></Component>\n</Project>";
    let st = store(xml, &[]);
    let src = "Root.Mode = Color.Red;\n";
    let tree = parse(src);
    let scope = scope_of(&tree, Some(st.project()), Some("X.m1scr"));
    let loc = goto_type_definition(&tree, 0, &st.loaded, &scope, Some(xml))
        .expect("enum-typed channel should resolve to its <Type> block");
    assert!(loc.uri.ends_with("Project.m1prj"));
    assert_eq!(loc.range.start.line, 3, "the <Type Name=\"Color\"> line");
    assert!(goto_type_definition(&tree, 0, &st.loaded, &scope, None).is_none());
    let elsewhere = "<Type Name=\"Colour\">";
    assert!(goto_type_definition(&tree, 0, &st.loaded, &scope, Some(elsewhere)).is_none());
}

#[test]
fn contained_join_rejects_absolute_and_parent_escapes() {
    let root = "/home/user/project";
    assert!(contained_join(root, "/etc/passwd").is_none());
    assert!(contained_join(root, "../../../../etc/passwd").is_none());
    assert!(contained_join(root, "sub/../../etc").is_none());
    assert_eq!(
        contained_join(root, "dbc/Foo.m1dbc"),
        Some("/home/user/project/dbc/Foo.m1dbc".to_string())
    );
    assert_eq!(
        contained_join(root, "Do Thing.m1scr"),
        Some("/home/user/project/Do Thing.m1scr".to_string())
    );
}

#[test]
fn goto_rejects_out_of_tree_filename() {
    let st = store(
        r#"<?xml version="1.0"?>
<Project>
  <Component Classname="BuiltIn.GroupCompound" Name="Root"/>
  <Component Classname="BuiltIn.FuncUser" Name="Root.Evil" Filename="/etc/passwd"/>
</Project>"#,
        &[],
    );
    assert!(
        goto_in(&st, "Evil();\n", "Caller.m1scr").is_none(),
        "an absolute .m1prj Filename must not produce a goto Location"
    );
}

// ---------------------------------------------------------------------------
// Badges
// ---------------------------------------------------------------------------

const TRIGGERED: &str = r#"<?xml version="1.0"?>
<Project>
  <Component Classname="BuiltIn.GroupCompound" Name="Root"/>
  <Component Classname="BuiltIn.GroupCompound" Name="Root.Engine"/>
  <Component Classname="BuiltIn.EventKernel" Name="Root.Events.On 500Hz"/>
  <Component Classname="BuiltIn.MethodUser" Name="Root.Engine.Update">
    <Props SelectedTrigger="Parent.Parent.Events.On 500Hz"/>
  </Component>
  <Component Classname="BuiltIn.MethodUser" Name="Root.Engine.Boot"/>
</Project>"#;

fn lenses(st: &Store, uri: &str, src: &str) -> Vec<CodeLens> {
    let (tree, errors) = parse_all(src);
    let name = uri.rsplit('/').next().unwrap();
    let scope = scope_of(&tree, Some(st.project()), Some(name));
    let script = ParsedScript { tree: &tree, scope: &scope, has_errors: errors > 0 };
    code_lens(&st.loaded, uri, Some(script))
}

#[test]
fn lens_shows_rate_for_triggered_script() {
    let st = store(TRIGGERED, &[]);
    let got = lenses(&st, "file:///proj/Scripts/Engine.Update.m1scr", "x = 1;\n");
    assert_eq!(got.len(), 1);
    assert_eq!(got[0].command.title, "⚡ 500 Hz");
    assert_eq!(got[0].range.start.line, 0);
}

#[test]
fn lens_is_clickable_to_project_trigger_line() {
    let st = store(TRIGGERED, &[]);
    let got = lenses(&st, "file:///proj/Scripts/Engine.Update.m1scr", "x = 1;\n");
    let cmd = &got[0].command;
    assert_eq!(cmd.command, "m1.revealLocation");
    let args = cmd.arguments.as_ref().expect("reveal args");
    match &args[0] {
        Argument::Text(target) => {
            assert!(target.ends_with("Project.m1prj"), "target uri: {target}");
        }
        other => panic!("expected a text, got {other:?}"),
    }
    assert!(matches!(args[1], Argument::Number(5)));
}

#[test]
fn no_lens_for_startup_only_script() {
    let st = store(TRIGGERED, &[]);
    assert!(lenses(&st, "file:///proj/Scripts/Engine.Boot.m1scr", "x = 1;\n").is_empty());
}

#[test]
fn no_lens_for_non_script_uri() {
    let st = store(TRIGGERED, &[]);
    assert!(lenses(&st, "file:///proj/Project.m1prj", "x = 1;\n").is_empty());
}

const BADGES: &str = r#"<?xml version="1.0"?>
<Project>
  <Component Classname="BuiltIn.GroupCompound" Name="Root"/>
  <Component Classname="BuiltIn.GroupCompound" Name="Root.Engine"/>
  <Component Classname="BuiltIn.EventKernel" Name="Root.Events.On 100Hz"/>
  <Component Classname="BuiltIn.Channel" Name="Root.Engine.Speed"><Props Type="f32" DefaultLogRate="5MS"/></Component>
  <Component Classname="BuiltIn.Channel" Name="Root.Engine.Temp"><Props Type="f32" Security="Calibration"/></Component>
  <Component Classname="BuiltIn.Channel" Name="Root.Engine.Plain"><Props Type="f32"/></Component>
  <Component Classname="BuiltIn.MethodUser" Name="Root.Engine.Update">
    <Props SelectedTrigger="Parent.Parent.Events.On 100Hz"/>
  </Component>
</Project>"#;

fn badge_titles(src: &str) -> Vec<String> {
    let st = store(BADGES, &[]);
    lenses(&st, "file:///proj/Scripts/Engine.Update.m1scr", src)
        .into_iter()
        .map(|l| l.command.title)
        .collect()
}

#[test]
fn logging_badge_for_logged_channel_write() {
    let got = badge_titles("Speed = 1.0;\n");
    assert!(got.iter().any(|t| t.starts_with("📊 logs Speed @ ")), "got {got:?}");
    assert!(got.contains(&"📊 logs Speed @ 200 Hz".to_string()), "got {got:?}");
}

#[test]
fn security_badge_for_secured_channel_write() {
    let got = badge_titles("Temp = 1.0;\n");
    assert!(got.contains(&"🔒 writes Calibration".to_string()), "got {got:?}");
}

#[test]
fn no_badges_for_plain_writes() {
    let got = badge_titles("Plain = 1.0;\n");
    assert!(
        got.iter().all(|t| !t.starts_with("📊") && !t.starts_with("🔒")),
        "got {got:?}"
    );
    assert!(got.iter().any(|t| t.starts_with("⚡ 100 Hz")), "got {got:?}");
}

#[test]
fn a_script_with_errors_writes_nothing() {
    assert_eq!(badge_titles("Speed = 1.0\nTemp = ;\n"), vec!["⚡ 100 Hz".to_string()]);
}

// ---------------------------------------------------------------------------
// Renaming
// ---------------------------------------------------------------------------

fn rename_here(src: &str, byte: usize, new: &str) -> Result<WorkspaceEdit, String> {
    let tree = parse(src);
    let scope = scope_of(&tree, None, None);
    execute(
        &tree,
        byte,
        new,
        "file:///t.m1scr",
        &LineIndex::new(src),
        ENC,
        None,
        &scope,
        None,
        &no_scripts(),
    )
}

fn local_edits(src: &str, at: &str, new: &str) -> Vec<TextEdit> {
    match rename_here(src, src.find(at).unwrap(), new) {
        Ok(e) => e.changes.unwrap().into_iter().next().unwrap().1,
        Err(_) => Vec::new(),
    }
}

fn check_renames_all_local_occurrences() {
    let edits = local_edits("local count = 0;\ncount = count + 1;\n", "count", "total");
    assert_eq!(edits.len(), 3, "declaration + two references");
    assert!(edits.iter().all(|e| e.new_text == "total"));
}

#[test]
fn rename_renames_all_local_occurrences() {
    check_renames_all_local_occurrences();
}

#[test]
fn tests_renames_all_local_occurrences() {
    check_renames_all_local_occurrences();
}

fn check_local_rename_ignores_same_named_member_property() {
    let edits = local_edits(
        "local count = 0;\nFoo.count = 1;\ncount = count + 1;\n",
        "count",
        "total",
    );
    assert_eq!(edits.len(), 3);
}

#[test]
fn rename_local_rename_ignores_same_named_member_property() {
    check_local_rename_ignores_same_named_member_property();
}

#[test]
fn tests_local_rename_ignores_same_named_member_property() {
    check_local_rename_ignores_same_named_member_property();
}

fn check_rejects_invalid_local_name() {
    let err = rename_here("local count = 0;\n", "local count".find("count").unwrap() + 6, "9bad");
    assert!(err.is_err());
    let err = rename_here("local count = 0;\n", 6, "9bad").unwrap_err();
    assert!(err.contains("not a valid local name"), "got: {err}");
}

#[test]
fn rename_rejects_invalid_local_name() {
    check_rejects_invalid_local_name();
}

#[test]
fn tests_rejects_invalid_local_name() {
    check_rejects_invalid_local_name();
}

fn check_renames_a_multi_word_local() {
    let src = "local Torque Request = 0;\nTorque Request = Torque Request + 1;\n";
    let byte = src.find("Torque Request").unwrap() + 6;
    let edit = rename_here(src, byte, "Brake Force").expect("multi-word local rename should succeed");
    let edits = edit.changes.unwrap().into_iter().next().unwrap().1;
    assert_eq!(edits.len(), 3, "declaration + two references: {edits:?}");
    assert!(edits.iter().all(|e| e.new_text == "Brake Force"));
}

#[test]
fn rename_renames_a_multi_word_local() {
    check_renames_a_multi_word_local();
}

#[test]
fn tests_renames_a_multi_word_local() {
    check_renames_a_multi_word_local();
}

fn check_validates_names() {
    assert!(is_valid_identifier("total"));
    assert!(is_valid_identifier("Torque Request"));
    assert!(!is_valid_identifier("9bad"));
    assert!(!is_valid_identifier(" pad"));
    assert!(!is_valid_identifier("a.b"));
    assert!(is_valid_symbol_name("Drive State"));
    assert!(!is_valid_symbol_name("a.b"));
    assert!(!is_valid_symbol_name(""));
    assert!(!is_valid_symbol_name(" pad"));
}

#[test]
fn rename_validates_names() {
    check_validates_names();
}

#[test]
fn tests_validates_names() {
    check_validates_names();
}

const PRJ: &str = r#"<?xml version="1.0"?>
<Project>
  <Component Classname="BuiltIn.GroupCompound" Name="Root"/>
  <Component Classname="BuiltIn.GroupCompound" Name="Root.Engine"/>
  <Component Classname="BuiltIn.Parameter" Name="Root.Engine.Threshold"><Props Type="f32"/></Component>
  <Component Classname="BuiltIn.Channel" Name="Root.Engine.Speed"><Props Type="f32"/></Component>
  <Component Classname="BuiltIn.Channel" Name="Root.Engine.Speed.Value"><Props Type="f32"/></Component>
  <Component Classname="BuiltIn.GroupCompound" Name="Root.Other"/>
  <Component Classname="BuiltIn.Parameter" Name="Root.Other.Threshold"><Props Type="f32"/></Component>
  <Component Classname="BuiltIn.MethodUser" Name="Root.Engine.Update"/>
  <Component Classname="BuiltIn.MethodUser" Name="Root.Other.Update"/>
</Project>"#;

fn changes_for(we: &WorkspaceEdit, ends_with: &str) -> Vec<String> {
    we.changes
        .as_ref()
        .unwrap()
        .iter()
        .find(|(u, _)| u.ends_with(ends_with))
        .map(|(_, e)| e.iter().map(|t| t.new_text.clone()).collect())
        .unwrap_or_default()
}

fn operations(we: &WorkspaceEdit) -> &[DocumentChangeOperation] {
    match &we.document_changes {
        Some(DocumentChanges::Operations(ops)) => ops,
        _ => &[],
    }
}

fn doc_edits_for(we: &WorkspaceEdit, ends_with: &str) -> Vec<String> {
    let mut out = Vec::new();
    for op in operations(we) {
        if let DocumentChangeOperation::Edit(d) = op {
            if d.uri.ends_with(ends_with) {
                for e in &d.edits {
                    out.push(match e {
                        AnyTextEdit::Plain(t) => t.new_text.clone(),
                        AnyTextEdit::Annotated(a) => a.text_edit.new_text.clone(),
                    });
                }
            }
        }
    }
    out
}

fn rename_files(we: &WorkspaceEdit) -> Vec<(String, String)> {
    let name = |u: &str| u.rsplit('/').next().unwrap().replace("%20", " ");
    operations(we)
        .iter()
        .filter_map(|op| match op {
            DocumentChangeOperation::Rename(r) => Some((name(&r.old_uri), name(&r.new_uri))),
            _ => None,
        })
        .collect()
}

fn check_renames_project_leaf_across_scripts_and_m1prj() {
    let a = "local a = Engine.Threshold;\nlocal b = Threshold;\nlocal c = This.Threshold;\nlocal d = Threshold.AsInteger;\n";
    let b = "local e = Root.Engine.Threshold;\nlocal f = Threshold;\n";
    let st = store(PRJ, &[("Engine.Update.m1scr", a), ("Other.Update.m1scr", b)]);
    let we = st
        .rename(a, a.find("Threshold").unwrap(), "Trip Point", "Engine.Update.m1scr")
        .expect("rename should succeed");
    let prj = changes_for(&we, "Project.m1prj");
    assert_eq!(prj.len(), 1, "one declaration edit");
    assert_eq!(prj[0], "Trip Point");
    let ae = changes_for(&we, "Engine.Update.m1scr");
    assert_eq!(
        ae.len(),
        4,
        "Engine.Threshold, Threshold, This.Threshold, Threshold.AsInteger"
    );
    assert!(ae.iter().all(|e| e == "Trip Point"));
    let be = changes_for(&we, "Other.Update.m1scr");
    assert_eq!(be.len(), 1, "only the absolute Root.Engine.Threshold ref");
    let after = apply_workspace_edit_to(&we, &uri_in("Engine.Update.m1scr"), &LineIndex::new(a), ENC);
    assert_eq!(
        after.as_deref(),
        Some("local a = Engine.Trip Point;\nlocal b = Trip Point;\nlocal c = This.Trip Point;\nlocal d = Trip Point.AsInteger;\n")
    );
}

#[test]
fn rename_renames_project_leaf_across_scripts_and_m1prj() {
    check_renames_project_leaf_across_scripts_and_m1prj();
}

#[test]
fn tests_renames_project_leaf_across_scripts_and_m1prj() {
    check_renames_project_leaf_across_scripts_and_m1prj();
}

fn check_rename_from_reference_also_rewrites_definition_and_m1prj() {
    let src = "Engine.Threshold = 1.0;\nlocal x = Engine.Threshold;\n";
    let st = store(PRJ, &[("Engine.Update.m1scr", src)]);
    let we = st
        .rename(src, src.rfind("Threshold").unwrap(), "Trip Point", "Engine.Update.m1scr")
        .expect("rename should succeed");
    let changes = we.changes.as_ref().unwrap();
    let edits = &changes.iter().find(|(u, _)| u.ends_with("Engine.Update.m1scr")).unwrap().1;
    assert_eq!(
        edits.len(),
        2,
        "the write (definition) and the read must both be rewritten: {edits:?}"
    );
    assert!(edits.iter().all(|e| e.new_text == "Trip Point"));
    assert!(
        edits.iter().any(|e| e.range.start.line == 0),
        "the definition/write site on line 0 must be in the edit: {edits:?}"
    );
    let prj = changes_for(&we, "Project.m1prj");
    assert_eq!(prj.len(), 1, "the .m1prj declaration is renamed: {prj:?}");
}

#[test]
fn rename_rename_from_reference_also_rewrites_definition_and_m1prj() {
    check_rename_from_reference_also_rewrites_definition_and_m1prj();
}

#[test]
fn tests_rename_from_reference_also_rewrites_definition_and_m1prj() {
    check_rename_from_reference_also_rewrites_definition_and_m1prj();
}

fn check_refuses_compound_with_children() {
    let st = store(PRJ, &[]);
    let src = "Engine.Speed = 1.0;\n";
    let err = st
        .rename(src, src.find("Speed").unwrap(), "Motor", "Engine.Update.m1scr")
        .unwrap_err();
    assert!(err.contains("child"), "got: {err}");
}

#[test]
fn rename_refuses_compound_with_children() {
    check_refuses_compound_with_children();
}

#[test]
fn tests_refuses_compound_with_children() {
    check_refuses_compound_with_children();
}

fn check_refuses_name_collision() {
    let xml = PRJ.replace(
        r#"<Component Classname="BuiltIn.Parameter" Name="Root.Engine.Threshold"><Props Type="f32"/></Component>"#,
        r#"<Component Classname="BuiltIn.Parameter" Name="Root.Engine.Threshold"><Props Type="f32"/></Component>
  <Component Classname="BuiltIn.Parameter" Name="Root.Engine.Limit"><Props Type="f32"/></Component>"#,
    );
    let st = store(&xml, &[]);
    let src = "Engine.Threshold = 1.0;\n";
    let byte = src.find("Threshold").unwrap();
    let err = st.rename(src, byte, "Limit", "Engine.Update.m1scr").unwrap_err();
    assert!(err.contains("already exists"));
    let err = st.rename(src, byte, "Threshold", "Engine.Update.m1scr").unwrap_err();
    assert_eq!(err, "the new name is the same as the current name");
    let err = st.rename(src, byte, "a.b", "Engine.Update.m1scr").unwrap_err();
    assert!(err.contains("not a valid M1 symbol name"), "got: {err}");
}

#[test]
fn rename_refuses_name_collision() {
    check_refuses_name_collision();
}

#[test]
fn tests_refuses_name_collision() {
    check_refuses_name_collision();
}

fn prepare_in(st: &Store, src: &str, find: &str, file: &str) -> Option<Range> {
    let tree = parse(src);
    let scope = scope_of(&tree, Some(st.project()), Some(file));
    let byte = src.find(find).unwrap();
    prepare(&tree, byte, &LineIndex::new(src), ENC, Some(st.project()), &scope)
}

fn check_prepare_offers_leaf_for_project_symbol_rejects_group() {
    let st = store(PRJ, &[]);
    let on_leaf = prepare_in(&st, "Engine.Threshold = 1.0;\n", "Threshold", "Engine.Update.m1scr");
    assert!(on_leaf.is_some(), "leaf symbol is renameable");
    let r = on_leaf.unwrap();
    assert_eq!((r.start.character, r.end.character), (7, 16));
    let on_compound = prepare_in(&st, "Engine.Speed = 1.0;\n", "Speed", "Engine.Update.m1scr");
    assert!(on_compound.is_none(), "the compound channel is not renameable");
}

#[test]
fn rename_prepare_offers_leaf_for_project_symbol_rejects_group() {
    check_prepare_offers_leaf_for_project_symbol_rejects_group();
}

#[test]
fn tests_prepare_offers_leaf_for_project_symbol_rejects_group() {
    check_prepare_offers_leaf_for_project_symbol_rejects_group();
}

fn check_post_rename_m1prj_text_makes_renamed_symbol_live_on_reload() {
    let src = "Engine.Threshold = 1.0;\n";
    let st = store(PRJ, &[("Engine.Update.m1scr", src)]);
    let we = st
        .rename(src, src.find("Threshold").unwrap(), "Trip Point", "Engine.Update.m1scr")
        .expect("rename should succeed");
    let new_prj = apply_workspace_edit_to(&we, &uri_in("Project.m1prj"), &st.prj, ENC)
        .expect("the rename must touch Project.m1prj");
    assert!(new_prj.contains("Root.Engine.Trip Point"), "got: {new_prj}");
    assert!(!new_prj.contains("Root.Engine.Threshold"), "got: {new_prj}");
    let reloaded = project_of(&new_prj);
    assert!(
        reloaded.get("Root.Engine.Trip Point").is_some(),
        "renamed symbol must be live without a restart"
    );
    assert!(reloaded.get("Root.Engine.Threshold").is_none());
    assert!(apply_workspace_edit_to(&we, &uri_in("Other.m1scr"), &st.prj, ENC).is_none());
}

#[test]
fn rename_post_rename_m1prj_text_makes_renamed_symbol_live_on_reload() {
    check_post_rename_m1prj_text_makes_renamed_symbol_live_on_reload();
}

#[test]
fn tests_post_rename_m1prj_text_makes_renamed_symbol_live_on_reload() {
    check_post_rename_m1prj_text_makes_renamed_symbol_live_on_reload();
}

fn te(n: u32) -> TextEdit {
    let zero = Position { line: 0, character: 0 };
    TextEdit { range: Range { start: zero, end: zero }, new_text: format!("x{n}") }
}

fn two_files() -> WorkspaceEdit {
    WorkspaceEdit {
        changes: Some(vec![
            ("file:///a.m1scr".to_string(), vec![te(1)]),
            ("file:///b.m1scr".to_string(), vec![te(2)]),
        ]),
        document_changes: None,
        change_annotations: None,
    }
}

#[test]
fn annotate_skips_unsupported_client_and_single_file() {
    let out = annotate_for_confirmation(two_files(), "New", false);
    assert!(out.changes.is_some() && out.change_annotations.is_none());
    let we1 = WorkspaceEdit {
        changes: Some(vec![("file:///a.m1scr".to_string(), vec![te(1)])]),
        document_changes: None,
        change_annotations: None,
    };
    let out1 = annotate_for_confirmation(we1, "New", true);
    assert!(
        out1.change_annotations.is_none(),
        "single-file rename needs no preview"
    );
}

#[test]
fn annotate_multi_file_attaches_confirmation() {
    let out = annotate_for_confirmation(two_files(), "New", true);
    assert!(out.changes.is_none());
    let anns = out.change_annotations.as_ref().expect("annotations attached");
    assert_eq!(anns.len(), 1);
    assert_eq!(anns[0].1.needs_confirmation, Some(true));
    assert_eq!(anns[0].1.label, "Rename to ‘New’");
    assert_eq!(anns[0].1.description.as_deref(), Some("2 file(s) edited"));
    let ops = operations(&out);
    assert_eq!(ops.len(), 2);
    for op in ops {
        let DocumentChangeOperation::Edit(d) = op else {
            panic!("expected edit op")
        };
        assert!(d.edits.iter().all(|e| matches!(e, AnyTextEdit::Annotated(_))));
    }
    // What each document gets is what it got before.
    let li = LineIndex::new("");
    let plain = apply_workspace_edit_to(&two_files(), "file:///b.m1scr", &li, ENC);
    assert_eq!(plain, apply_workspace_edit_to(&out, "file:///b.m1scr", &li, ENC));
    assert_eq!(plain.as_deref(), Some("x2"));
}

#[test]
fn annotate_file_rename_op_attaches_confirmation_even_single_edit() {
    let ops = vec![
        DocumentChangeOperation::Edit(TextDocumentEdit {
            uri: "file:///Project.m1prj".to_string(),
            version: None,
            edits: vec![AnyTextEdit::Plain(te(1))],
        }),
        DocumentChangeOperation::Rename(RenameFile {
            old_uri: "file:///Old.m1scr".to_string(),
            new_uri: "file:///New.m1scr".to_string(),
            options: None,
            annotation_id: None,
        }),
    ];
    let we = WorkspaceEdit {
        changes: None,
        document_changes: Some(DocumentChanges::Operations(ops)),
        change_annotations: None,
    };
    let out = annotate_for_confirmation(we, "New", true);
    assert!(out.change_annotations.is_some());
    let renamed = operations(&out).iter().any(|o| {
        matches!(o, DocumentChangeOperation::Rename(r) if r.annotation_id.is_some())
    });
    assert!(renamed, "RenameFile must carry the annotation id");
}

#[test]
fn rewrite_trailing_leaf_only_on_whole_trailing_token() {
    assert_eq!(
        rewrite_trailing_leaf("Demo.Calculate.m1scr", "Calculate", "Recalculate").as_deref(),
        Some("Demo.Recalculate.m1scr")
    );
    assert_eq!(
        rewrite_trailing_leaf("Calculate.m1scr", "Calculate", "Recalculate").as_deref(),
        Some("Recalculate.m1scr")
    );
    assert_eq!(
        rewrite_trailing_leaf("Demo.Miscalculate.m1scr", "Calculate", "Recalculate"),
        None
    );
    assert_eq!(
        rewrite_trailing_leaf("Demo.Calculate.txt", "Calculate", "Recalculate"),
        None
    );
}

const FUNC: &str = r#"<?xml version="1.0"?>
<Project>
  <Component Classname="BuiltIn.GroupCompound" Name="Root"/>
  <Component Classname="BuiltIn.GroupCompound" Name="Root.Demo"/>
  <Component Classname="BuiltIn.MethodUser" Name="Root.Demo.Calculate"/>
  <Component Classname="BuiltIn.MethodUser" Name="Root.Demo.Other"/>
</Project>"#;

fn func_store() -> Store {
    store(
        FUNC,
        &[("Demo.Calculate.m1scr", "// calc\n"), ("Demo.Other.m1scr", "Demo.Calculate();\n")],
    )
}

#[test]
fn file_backed_method_is_renameable_from_call_site() {
    let pr = prepare_in(&func_store(), "Demo.Calculate();\n", "Calculate", "Demo.Other.m1scr");
    assert!(pr.is_some(), "file-backed method should be renameable");
}

#[test]
fn rename_file_backed_method_edits_decl_callsite_and_moves_file() {
    let src = "Demo.Calculate();\n";
    let we = func_store()
        .rename(src, src.find("Calculate").unwrap(), "Recalculate", "Demo.Other.m1scr")
        .expect("file-backed method rename should succeed");
    let prj = doc_edits_for(&we, "Project.m1prj");
    assert!(
        prj.iter().any(|e| e == "Recalculate"),
        "Name= leaf must be rewritten: {prj:?}"
    );
    let other = doc_edits_for(&we, "Demo.Other.m1scr");
    assert!(
        other.iter().any(|e| e == "Recalculate"),
        "call site must be rewritten: {other:?}"
    );
    let files = rename_files(&we);
    assert!(
        files
            .iter()
            .any(|(o, n)| o == "Demo.Calculate.m1scr" && n == "Demo.Recalculate.m1scr"),
        "backing file must be renamed: {files:?}"
    );
}

#[test]
fn rename_file_backed_method_refuses_when_backing_file_missing() {
    let st = store(FUNC, &[("Demo.Other.m1scr", "Demo.Calculate();\n")]);
    let src = "Demo.Calculate();\n";
    let res = st.rename(src, src.find("Calculate").unwrap(), "Recalculate", "Demo.Other.m1scr");
    assert!(res.is_err(), "must refuse when backing file is missing");
}

#[test]
fn rewrite_filename_group_segment_only_on_leading_whole_token() {
    assert_eq!(
        rewrite_filename_group_segment("Demo Run.m1scr", "Demo", "Widget").as_deref(),
        Some("Widget Run.m1scr")
    );
    assert_eq!(
        rewrite_filename_group_segment("Demo.Run.m1scr", "Demo", "Widget").as_deref(),
        Some("Widget.Run.m1scr")
    );
    assert_eq!(
        rewrite_filename_group_segment("Demo.m1scr", "Demo", "Widget").as_deref(),
        Some("Widget.m1scr")
    );
    assert_eq!(
        rewrite_filename_group_segment("Democracy.m1scr", "Demo", "Widget"),
        None
    );
    assert_eq!(
        rewrite_filename_group_segment("Other Run.m1scr", "Demo", "Widget"),
        None
    );
}

#[test]
fn group_rename_rewrites_explicit_filename_and_moves_the_file() {
    let prj = r#"<?xml version="1.0"?>
<Project>
  <Component Classname="BuiltIn.GroupCompound" Name="Root"/>
  <Component Classname="BuiltIn.GroupCompound" Name="Root.Demo"/>
  <Component Classname="BuiltIn.FuncUser" Name="Root.Demo.Run" Filename="Demo Run.m1scr"/>
</Project>"#;
    let st = store(prj, &[("Demo Run.m1scr", "// demo\n")]);
    let src = "local x = Root.Demo.Run;\n";
    let we = st
        .rename(src, src.find("Demo").unwrap(), "Widget", "Demo Run.m1scr")
        .expect("group rename should succeed");
    let prj_edits = doc_edits_for(&we, "Project.m1prj");
    assert!(
        prj_edits.iter().any(|e| e == "Widget Run.m1scr"),
        "Filename= must be rewritten: {prj_edits:?}"
    );
    let files = rename_files(&we);
    assert!(
        files.iter().any(|(o, n)| o == "Demo Run.m1scr" && n == "Widget Run.m1scr"),
        "explicit-filename script must be renamed on disk: {files:?}"
    );
}

fn check_renames_group_across_prj_scripts_and_backing_files() {
    let engine =
        "Engine.Threshold = 1.0;\nlocal a = Root.Engine.Speed;\nlocal b = This.Threshold;\n";
    let dash = "local d = Root.Engine.Threshold;\nlocal e = Engine.Speed;\n";
    let st = store(PRJ, &[("Engine.Update.m1scr", engine), ("Other.Update.m1scr", dash)]);
    let we = st
        .rename(dash, dash.find("Engine").unwrap(), "Motor", "Other.Update.m1scr")
        .expect("group rename should succeed");
    let prj = doc_edits_for(&we, "Project.m1prj");
    assert_eq!(prj.len(), 5, "group + 4 descendants: {prj:?}");
    assert!(prj.iter().all(|e| e == "Motor"));
    let other = doc_edits_for(&we, "Other.Update.m1scr");
    assert_eq!(other.len(), 2, "Root.Engine.* and Engine.Speed: {other:?}");
    let eng = doc_edits_for(&we, "Engine.Update.m1scr");
    assert_eq!(eng.len(), 2, "Engine.Threshold + Root.Engine.Speed: {eng:?}");
    assert_eq!(
        rename_files(&we),
        vec![("Engine.Update.m1scr".to_string(), "Motor.Update.m1scr".to_string())]
    );
    let after = apply_workspace_edit_to(&we, &uri_in("Project.m1prj"), &st.prj, ENC).unwrap();
    assert_eq!(after, PRJ.replace("Root.Engine", "Root.Motor"));
}

#[test]
fn rename_renames_group_across_prj_scripts_and_backing_files() {
    check_renames_group_across_prj_scripts_and_backing_files();
}

#[test]
fn tests_renames_group_across_prj_scripts_and_backing_files() {
    check_renames_group_across_prj_scripts_and_backing_files();
}

fn check_group_rename_rewrites_references_to_descendant_methods() {
    let caller = "Root.Engine.Update();\nEngine.Update();\n";
    let st = store(
        PRJ,
        &[("Engine.Update.m1scr", "Engine.Threshold = 1.0;\n"), ("Other.Update.m1scr", caller)],
    );
    let we = st
        .rename(caller, caller.find("Engine").unwrap(), "Motor", "Other.Update.m1scr")
        .expect("group rename should succeed");
    let calls = doc_edits_for(&we, "Other.Update.m1scr");
    assert_eq!(
        calls.len(),
        2,
        "Root.Engine.Update() and Engine.Update() call sites: {calls:?}"
    );
    assert!(calls.iter().all(|e| e == "Motor"));
    assert_eq!(
        rename_files(&we),
        vec![("Engine.Update.m1scr".to_string(), "Motor.Update.m1scr".to_string())]
    );
}

#[test]
fn rename_group_rename_rewrites_references_to_descendant_methods() {
    check_group_rename_rewrites_references_to_descendant_methods();
}

#[test]
fn tests_group_rename_rewrites_references_to_descendant_methods() {
    check_group_rename_rewrites_references_to_descendant_methods();
}

fn check_group_rename_refuses_when_backing_file_missing() {
    let src = "local d = Root.Engine.Threshold;\n";
    let st = store(PRJ, &[("Other.Update.m1scr", src)]);
    let err = st
        .rename(src, src.find("Engine").unwrap(), "Motor", "Other.Update.m1scr")
        .unwrap_err();
    assert!(err.contains("backing script"), "got: {err}");
}

#[test]
fn rename_group_rename_refuses_when_backing_file_missing() {
    check_group_rename_refuses_when_backing_file_missing();
}

#[test]
fn tests_group_rename_refuses_when_backing_file_missing() {
    check_group_rename_refuses_when_backing_file_missing();
}

fn check_group_rename_skips_firmware_generated_children() {
    let prj = r#"<?xml version="1.0"?>
<Project>
  <Component Classname="BuiltIn.GroupCompound" Name="Root"/>
  <Component Classname="BuiltIn.GroupCompound" Name="Root.CAN"/>
  <Component Classname="BuiltIn.Channel" Name="Root.CAN.Active"><Props Type="f32"/></Component>
  <Component Classname="BuiltIn.FuncGenerated.IO" Name="Root.CAN.Generated Method"/>
</Project>"#;
    let src = "local a = Root.CAN.Active;\n";
    let st = store(prj, &[("X.m1scr", src)]);
    let edit = st
        .rename(src, src.find("CAN").unwrap(), "Comms", "X.m1scr")
        .expect("group with only firmware-generated methods should rename");
    assert!(
        edit.document_changes.is_some() || edit.changes.is_some(),
        "expected a non-empty edit: {edit:?}"
    );
}

#[test]
fn rename_group_rename_skips_firmware_generated_children() {
    check_group_rename_skips_firmware_generated_children();
}

#[test]
fn tests_group_rename_skips_firmware_generated_children() {
    check_group_rename_skips_firmware_generated_children();
}

fn check_prepare_offers_group_segment() {
    let st = store(PRJ, &[("Engine.Update.m1scr", "Engine.Threshold = 1.0;\n")]);
    let on_group =
        prepare_in(&st, "local d = Root.Engine.Threshold;\n", "Engine", "Other.Update.m1scr");
    assert!(on_group.is_some(), "group segment is renameable");
    let r = on_group.unwrap();
    assert_eq!((r.start.character, r.end.character), (15, 21));
}

#[test]
fn rename_prepare_offers_group_segment() {
    check_prepare_offers_group_segment();
}

#[test]
fn tests_prepare_offers_group_segment() {
    check_prepare_offers_group_segment();
}

fn check_rename_from_m1prj_propagates_to_decl_and_scripts() {
    let a = "local x = Engine.Threshold;\nEngine.Threshold = 1.0;\n";
    let st = store(PRJ, &[("Engine.Update.m1scr", a)]);
    let byte = st.prj_text.find("Root.Engine.Threshold").unwrap() + "Root.Engine.".len();
    let uri = uri_in("Project.m1prj");
    let we = execute_m1prj(&st.prj, byte, "Trip Point", &uri, ENC, &st.loaded, &st.scripts())
        .expect("rename from .m1prj should succeed");
    let prj = changes_for(&we, "Project.m1prj");
    assert_eq!(prj.len(), 1, "one declaration edit");
    assert_eq!(prj[0], "Trip Point");
    let se = changes_for(&we, "Engine.Update.m1scr");
    assert_eq!(se.len(), 2, "both Engine.Threshold references: {se:?}");
    assert!(se.iter().all(|e| e == "Trip Point"));
    let err = execute_m1prj(&st.prj, 0, "Trip Point", &uri, ENC, &st.loaded, &st.scripts());
    assert!(err.unwrap_err().contains("place the cursor"));
}

#[test]
fn rename_rename_from_m1prj_propagates_to_decl_and_scripts() {
    check_rename_from_m1prj_propagates_to_decl_and_scripts();
}

#[test]
fn tests_rename_from_m1prj_propagates_to_decl_and_scripts() {
    check_rename_from_m1prj_propagates_to_decl_and_scripts();
}

fn check_prepare_m1prj_offers_leaf_rejects_compound() {
    let st = store(PRJ, &[]);
    let leaf = PRJ.find("Root.Engine.Threshold").unwrap() + 5;
    assert!(
        prepare_m1prj(&st.prj, leaf, ENC, Some(st.project())).is_some(),
        "leaf parameter is renameable from the .m1prj"
    );
    let compound = PRJ.find("Root.Engine.Speed\"").unwrap() + 5;
    assert!(
        prepare_m1prj(&st.prj, compound, ENC, Some(st.project())).is_none(),
        "the compound channel is not renameable"
    );
    assert!(prepare_m1prj(&st.prj, leaf, ENC, None).is_none());
}

#[test]
fn rename_prepare_m1prj_offers_leaf_rejects_compound() {
    check_prepare_m1prj_offers_leaf_rejects_compound();
}

#[test]
fn tests_prepare_m1prj_offers_leaf_rejects_compound() {
    check_prepare_m1prj_offers_leaf_rejects_compound();
}

// ---------------------------------------------------------------------------
// Renamed files
// ---------------------------------------------------------------------------

fn file_rename_result(st: &Store, old: &str, new: &str) -> Result<Option<WorkspaceEdit>, String> {
    let path = st
        .project()
        .symbols
        .iter()
        .find(|s| is_callable(s) && backing(s) == old)
        .map(|s| s.path.clone());
    execute_file_rename(
        &uri_in(old),
        &uri_in(new),
        ENC,
        &st.loaded,
        path.as_deref(),
        Some(&st.prj),
        &st.scripts(),
    )
}

#[test]
fn file_rename_of_group_segment_runs_the_cascade() {
    let st = store(
        PRJ,
        &[
            ("Engine.Update.m1scr", "local a = Engine.Threshold;\n"),
            ("Other.Update.m1scr", "local e = Root.Engine.Threshold;\n"),
        ],
    );
    let we = file_rename_result(&st, "Engine.Update.m1scr", "Motor.Update.m1scr")
        .expect("cascade should succeed")
        .expect("an edit is produced");
    let prj = doc_edits_for(&we, "Project.m1prj");
    assert!(prj.len() >= 5, "group + descendants, got {}", prj.len());
    assert!(prj.iter().all(|e| e == "Motor"));
    assert_eq!(doc_edits_for(&we, "Engine.Update.m1scr").len(), 1);
    assert_eq!(doc_edits_for(&we, "Other.Update.m1scr").len(), 1);
    assert!(rename_files(&we).is_empty(), "requested rename must be stripped");
}

#[test]
fn file_rename_updates_an_explicit_filename_attribute() {
    let prj = r#"<?xml version="1.0"?>
<Project>
  <Component Classname="BuiltIn.GroupCompound" Name="Root"/>
  <Component Classname="BuiltIn.GroupCompound" Name="Root.Engine"/>
  <Component Classname="BuiltIn.MethodUser" Filename="Custom Name.m1scr" Name="Root.Engine.Update"/>
</Project>"#;
    let st = store(prj, &[("Custom Name.m1scr", "local a = 1;\n")]);
    let we = file_rename_result(&st, "Custom Name.m1scr", "Other Name.m1scr")
        .expect("attribute update should succeed")
        .expect("an edit is produced");
    let prj = doc_edits_for(&we, "Project.m1prj");
    assert_eq!(prj.len(), 1, "exactly the Filename attribute value");
    assert_eq!(prj[0], "Other Name.m1scr");
    assert!(rename_files(&we).is_empty());
}

#[test]
fn file_rename_of_function_leaf_is_refused_with_guidance() {
    let st = store(PRJ, &[("Engine.Update.m1scr", "local a = 1;\n")]);
    let err = file_rename_result(&st, "Engine.Update.m1scr", "Engine.Tick.m1scr")
        .expect_err("leaf change is a symbol rename");
    assert!(err.contains("rename ‘Root.Engine.Update’"), "got: {err}");
}

#[test]
fn file_rename_of_several_segments_is_refused() {
    let st = store(PRJ, &[("Engine.Update.m1scr", "local a = 1;\n")]);
    let err = file_rename_result(&st, "Engine.Update.m1scr", "Motor.Tick.m1scr").unwrap_err();
    assert!(err.contains("does not map onto"), "got: {err}");
    let err = file_rename_result(&st, "Engine.Update.m1scr", "Update.m1scr").unwrap_err();
    assert!(err.contains("does not map onto"), "got: {err}");
}

#[test]
fn file_rename_dropping_the_extension_is_refused() {
    let st = store(PRJ, &[("Engine.Update.m1scr", "local a = 1;\n")]);
    let err = file_rename_result(&st, "Engine.Update.m1scr", "Engine.Update.txt")
        .expect_err("extension change breaks the mapping");
    assert!(err.contains(".m1scr"), "got: {err}");
}

#[test]
fn file_rename_of_an_unrelated_file_is_a_no_op() {
    let st = store(PRJ, &[("NotAScript.m1scr", "local a = 1;\n")]);
    let r = file_rename_result(&st, "NotAScript.m1scr", "StillNot.m1scr").expect("no error");
    assert!(r.is_none(), "no project symbol -> nothing to do");
}

#[test]
fn file_move_keeping_the_basename_is_a_no_op() {
    let st = store(PRJ, &[("Engine.Update.m1scr", "local a = 1;\n")]);
    let r = execute_file_rename(
        &uri_in("Engine.Update.m1scr"),
        &uri_in("sub/Engine.Update.m1scr"),
        ENC,
        &st.loaded,
        Some("Root.Engine.Update"),
        Some(&st.prj),
        &st.scripts(),
    )
    .expect("no error");
    assert!(r.is_none(), "basename unchanged -> mapping intact");
}

#[test]
fn a_project_file_that_cannot_be_read_stops_a_rename() {
    let src = "Engine.Threshold = 1.0;\n";
    let st = store(PRJ, &[("Engine.Update.m1scr", src)]);
    let tree = parse(src);
    let scope = scope_of(&tree, Some(st.project()), Some("Engine.Update.m1scr"));
    let rename = |loaded: &LoadedProject, prj: Option<&LineIndex>| {
        execute(
            &tree,
            src.find("Threshold").unwrap(),
            "Trip",
            &uri_in("Engine.Update.m1scr"),
            &LineIndex::new(src),
            ENC,
            Some(loaded),
            &scope,
            prj,
            &st.scripts(),
        )
    };
    assert_eq!(rename(&st.loaded, None).unwrap_err(), "cannot read the project file");
    let mut adrift = store(PRJ, &[]).loaded;
    adrift.m1prj_path = "Project.m1prj".to_string();
    assert_eq!(
        rename(&adrift, Some(&st.prj)).unwrap_err(),
        "cannot form a URL for the project file"
    );
    let other = LineIndex::new("<Project/>");
    assert_eq!(
        rename(&st.loaded, Some(&other)).unwrap_err(),
        "could not locate the declaration of ‘Root.Engine.Threshold’ in the project file"
    );
}

// ---------------------------------------------------------------------------
// What holds of several calls
// ---------------------------------------------------------------------------

#[test]
fn a_note_is_offered_once() {
    for src in ["x = 1;\n\ty    = 2;\n", "// @m1:allow(L010 )\ny = 2;\n"] {
        let once = suppressed(src, "y", "L007").unwrap();
        assert!(once.contains("L007"));
        assert!(suppressed(&once, "y", "L007").is_none(), "got: {once}");
        assert!(suppressed(&once, "y", "T001").is_some());
    }
}

#[test]
fn a_renamed_local_reads_its_new_name() {
    let src = "local count = 0;\nFoo.count = count;\ncount = count + 1;\n";
    let we = rename_here(src, src.find("count").unwrap(), "grand total").unwrap();
    let after = apply_workspace_edit_to(&we, "file:///t.m1scr", &LineIndex::new(src), ENC).unwrap();
    assert_eq!(
        after,
        "local grand total = 0;\nFoo.count = grand total;\ngrand total = grand total + 1;\n"
    );
    // The places are those that a search for references lists.
    let listed = refs(src, "count");
    let edits = &we.changes.as_ref().unwrap()[0].1;
    assert_eq!(
        edits.iter().map(|e| e.range).collect::<Vec<Range>>(),
        listed.iter().map(|l| l.range).collect::<Vec<Range>>()
    );
}

#[test]
fn past_the_end_completion_is_at_the_end() {
    let src = "x = Calculate.";
    let items = complete(None, None, src, src.len());
    let tree = parse(src);
    let targets = Scope {
        locals: Vec::new(),
        group: None,
        resolutions: Vec::new(),
        types: Vec::new(),
    };
    let past =
        completions(&tree, None, &targets, src, src.len() + 5, &LineIndex::new(src), ENC, &intrinsics());
    assert_eq!(item_labels(&items), item_labels(&past));
    assert!(item_labels(&past).contains(&"Max"));
}

#[test]
fn names_are_refused_whatever_they_are_for() {
    let src = "Engine.Threshold = 1.0;\nlocal x = 1;\n";
    let st = store(PRJ, &[("Engine.Update.m1scr", src)]);
    for find in ["Threshold", "x =", "Engine"] {
        let byte = src.find(find).unwrap();
        assert!(st.rename(src, byte, " \n ", "Engine.Update.m1scr").is_err());
        assert!(st.rename(src, byte, "a.b", "Engine.Update.m1scr").is_err());
    }
    // Blanks around the name of a symbol do not count.
    let we = st
        .rename(src, src.find("Threshold").unwrap(), "  Trip ", "Engine.Update.m1scr")
        .unwrap();
    assert_eq!(changes_for(&we, "Engine.Update.m1scr"), vec!["Trip".to_string()]);
}

#[test]
fn highlights_and_references_are_the_same_places() {
    let src = "local a = 1;\na = a + Root.b;\nRoot.b = a;\n";
    let tree = parse(src);
    let li = LineIndex::new(src);
    for find in ["a =", "Root.b"] {
        let byte = src.find(find).unwrap();
        let hs = document_highlights(&tree, byte, &li, ENC).unwrap();
        let ls = references(&tree, byte, "file:///t.m1scr", &li, ENC).unwrap();
        assert_eq!(
            hs.iter().map(|h| h.range).collect::<Vec<Range>>(),
            ls.iter().map(|l| l.range).collect::<Vec<Range>>()
        );
    }
}

#[test]
fn implementations_are_among_the_references() {
    let a = "Engine.Threshold = 1.0;\nlocal b = Threshold;\n";
    let st = store(PRJ, &[("Engine.Update.m1scr", a), ("Other.Update.m1scr", "x = Root.Engine.Threshold;\n")]);
    let scripts = st.scripts();
    let byte = a.find("Threshold").unwrap();
    let all = project_references(&scripts, 0, byte, ENC).unwrap();
    let written = project_implementations(&scripts, 0, byte, ENC).unwrap();
    assert_eq!((all.len(), written.len()), (3, 1));
    assert!(written.iter().all(|w| all.iter().any(|l| l.uri == w.uri && l.range == w.range)));
}

#[test]
fn every_path_of_a_script_is_listed() {
    let paths = scope_paths(&parse("Root.Engine.Speed = x + Calculate.Max(y, 1);\n"));
    for p in ["Root.Engine.Speed", "Root.Engine", "Root", "x", "Calculate.Max", "y"] {
        assert!(paths.iter().any(|q| q == p), "{p} is not in {paths:?}");
    }
}

#[test]
fn every_argument_has_its_parameter_name() {
    let at = |src: &str| -> Vec<(u32, String)> {
        hints(src)
            .into_iter()
            .filter(|h| h.kind == InlayHintKind::Parameter)
            .map(|h| (h.position.character, h.label))
            .collect()
    };
    let named = |a: u32, b: u32| vec![(a, "a:".to_string()), (b, "b:".to_string())];
    assert_eq!(at("x = Calculate.Max(true, b);\n"), named(18, 24));
    assert_eq!(at("x = Calculate.Max(b, false);\n"), named(18, 21));
    assert_eq!(at("x = Calculate.Max(1, \"s\");\n"), named(18, 21));
}

#[test]
fn types_are_declared_by_their_own_element() {
    let line = |xml: &str, name: &str| enum_type_decl_line(xml, name);
    let one = "<Type Name=\"Color\" Storage=\"enum\"><Enum Name=\"Red\" ContainerOrder=\"1\"/></Type>";
    assert_eq!(line(one, "Color"), Some(0));
    assert_eq!(line(one, "Red"), None);
    assert_eq!(line(one, "Storage"), None);
    let two = "<DataTypes>\n <Type Name=\"A\"/><Type\tStorage='>' Name=\"B\">\n<Types Name=\"C\"/>\n";
    assert_eq!(line(two, "A"), Some(1));
    assert_eq!(line(two, "B"), Some(1));
    assert_eq!(line(two, "C"), None);
    assert_eq!(line("<Type Name=\"A\"/><Component Name=\"C\"/>", "C"), None);
    assert_eq!(line("<Type Note=' Name=\"C\"' Name=\"A\"/>", "C"), None);
    assert_eq!(line("<Type ClassName=\"C\" Name=\"A\"/>", "C"), None);
    assert_eq!(line("", "C"), None);
}

#[test]
fn deep_operators_do_not_overflow() {
    // A chain of operators, each in the one before, and then a node behind the chain.
    let depth = 50_000;
    let src = format!("x = {}1;y;\n", "-".repeat(depth));
    let node = |kind, start, end, parent, field| NodeData {
        kind,
        start,
        end,
        parent,
        named: true,
        field,
    };
    let last = 4 + depth + 1;
    let mut nodes = vec![
        node(Kind::SourceFile, 0, src.len(), None, None),
        node(Kind::AssignmentStatement, 0, last + 1, Some(0), None),
        node(Kind::Identifier, 0, 1, Some(1), Some(Field::Target)),
    ];
    let mut parent = 1;
    for k in 0..depth {
        let me = nodes.len();
        nodes.push(node(Kind::UnaryExpression, 4 + k, last, Some(parent), None));
        parent = me;
    }
    nodes.push(node(Kind::Number, last - 1, last, Some(parent), None));
    nodes.push(node(Kind::Identifier, last + 1, last + 2, Some(0), None));
    let tree = SyntaxTree::new(&src, nodes).unwrap();
    assert_eq!(tree.len(), depth + 5);
    assert_eq!(document_symbols(&tree, &LineIndex::new(&src), ENC).len(), 1);
}

#[test]
fn files_that_are_made_or_removed_keep_their_options() {
    let created = CreateFile {
        uri: "file:///n".to_string(),
        options: Some(FileOptions { overwrite: Some(true), ignore_if_exists: None }),
        annotation_id: Some("own".to_string()),
    };
    let removed = DeleteFile {
        uri: "file:///d".to_string(),
        options: Some(DeleteOptions {
            recursive: Some(true),
            ignore_if_not_exists: Some(false),
            annotation_id: None,
        }),
    };
    let moved = RenameFile {
        old_uri: "file:///o".to_string(),
        new_uri: "file:///m".to_string(),
        options: Some(FileOptions { overwrite: None, ignore_if_exists: Some(true) }),
        annotation_id: None,
    };
    let we = WorkspaceEdit {
        changes: None,
        document_changes: Some(DocumentChanges::Operations(vec![
            DocumentChangeOperation::Create(created),
            DocumentChangeOperation::Delete(removed),
            DocumentChangeOperation::Rename(moved),
        ])),
        change_annotations: None,
    };
    let out = annotate_for_confirmation(we, "New", true);
    let anns = out.change_annotations.as_ref().unwrap();
    assert_eq!(anns[0].1.description.as_deref(), Some("0 file(s) edited, 1 file(s) renamed"));
    match operations(&out) {
        [DocumentChangeOperation::Create(c), DocumentChangeOperation::Delete(d), DocumentChangeOperation::Rename(m)] => {
            assert_eq!(c.options.unwrap().overwrite, Some(true));
            assert_eq!(c.annotation_id.as_deref(), Some("own"));
            assert_eq!(d.options.as_ref().unwrap().recursive, Some(true));
            assert_eq!(m.options.unwrap().ignore_if_exists, Some(true));
            assert_eq!(m.annotation_id.as_deref(), Some("m1.rename"));
        }
        other => panic!("unexpected steps: {other:?}"),
    }
}

#[test]
fn a_file_of_other_bytes_is_not_the_one_that_moves() {
    let mut st = store(PRJ, &[("Engine.Update.m1scr", "local a = 1;\n")]);
    st.loaded.script_files = vec!["/proj\u{fffd}/Engine.Update.m1scr".to_string()];
    let rename = |old: &str| {
        execute_file_rename(
            old,
            "file:///proj/Motor.Update.m1scr",
            ENC,
            &st.loaded,
            Some("Root.Engine.Update"),
            Some(&st.prj),
            &no_scripts(),
        )
    };
    let edit = rename("file:///proj%EF%BF%BD/Engine.Update.m1scr");
    assert!(matches!(edit, Ok(Some(_))), "got: {edit:?}");
    let err = rename("file:///proj%FF/Engine.Update.m1scr").unwrap_err();
    assert!(err.contains("does not correspond to the group cascade"), "got: {err}");
}

#[test]
fn initialisers_see_the_locals_in_front_of_them() {
    let tree = parse("local a = 1;\nlocal b = a;\nlocal a = 1.5;\n");
    let types = initial_types(&tree, None, None);
    let decls: Vec<usize> =
        (0..tree.len()).filter(|n| tree.kind(*n) == Kind::LocalDeclaration).collect();
    let known = |n: usize| scope_before(&tree, Some("Root.G".to_string()), &types, n).locals;
    assert!(known(decls[0]).is_empty());
    assert_eq!(known(decls[1]), vec![("a".to_string(), ValueType::Integer)]);
    let two = vec![("a".to_string(), ValueType::Integer), ("b".to_string(), ValueType::Integer)];
    assert_eq!(known(decls[2]), two);
    let all = vec![("a".to_string(), ValueType::Float), ("b".to_string(), ValueType::Integer)];
    assert_eq!(known(tree.len()), all);
    assert_eq!(collect_locals(&tree, &types), all);
    assert_eq!(scope_before(&tree, Some("Root.G".to_string()), &types, 0).group.as_deref(), Some("Root.G"));
}
