//! Renaming that starts in the project file, on the name of a component.
use crate::attributes::{attribute_values, span_in, values_of};
use crate::code_lens::{leaf, leaf_name};
use crate::edits::{WorkspaceEdit, WorkspaceEditView};
use crate::format::{decimal, decimal_text};
use crate::line_index::{LineIndex, PositionEncoding, Range, range, range_of};
use crate::model::{LoadedProject, LoadedProjectView, Project, ProjectView, Symbol, SymbolView};
use crate::references::{Script, ScriptView};
use crate::rename::changes::{check_new_name, leaf_rename, name_conflict, outcome, rename_leaf};
use crate::rename::func::{execute_func_method, script_rename};
use crate::rename::names::{is_symbol_name, is_valid_symbol_name};
use crate::rename::resolve::{
    is_plain_kind, is_user_authored_script, is_user_script, kind_label, kind_text, plain_kind,
};
use crate::search::{lemma_last_index, trim, trimmed};
use crate::text::{
    byte_at, byte_len, bytes_before, chars, lemma_byte_at_ends, lemma_byte_at_monotone, string,
    substring,
};
use vstd::prelude::*;
use vstd::string::*;

verus! {

/// The first value, from index `k` of `spans` on, that byte `b` touches.
pub open spec fn name_at(s: Seq<char>, spans: Seq<(usize, usize)>, b: int, k: int) -> Option<
    (usize, usize),
>
    decreases spans.len() - k,
{
    if k < 0 || k >= spans.len() {
        None
    } else if byte_at(s, spans[k].0 as int) <= b <= byte_at(s, spans[k].1 as int) {
        Some(spans[k])
    } else {
        name_at(s, spans, b, k + 1)
    }
}

/// The name that byte `b` of the project file touches: the path, and where it starts and
/// ends.
pub open spec fn name_attr(s: Seq<char>, b: int) -> Option<(Seq<char>, usize, usize)> {
    match name_at(s, values_of(s, "Name=\""@), b, 0) {
        Some((a, z)) => Some((s.subrange(a as int, z as int), a, z)),
        None => None,
    }
}

fn name_attr_at(prj: &LineIndex, byte: usize) -> (r: Option<(String, usize, usize)>)
    ensures
        r.deep_view() == name_attr(prj@, byte as int),
        r matches Some((path, a, z)) ==> a <= z <= prj@.len() && path@ == prj@.subrange(
            a as int,
            z as int,
        ),
{
    let v = prj.characters();
    let spans = attribute_values(v, "Name=\"");
    let mut k: usize = 0;
    while k < spans.len()
        invariant
            k <= spans@.len(),
            v@ == prj@,
            byte_len(v@) <= u32::MAX,
            spans@ == values_of(v@, "Name=\""@),
            forall|i: int| 0 <= i < spans@.len() ==> span_in(v@, #[trigger] spans@[i]),
            name_at(v@, spans@, byte as int, 0) == name_at(v@, spans@, byte as int, k as int),
        decreases spans@.len() - k,
    {
        let (a, z) = spans[k];
        assert(span_in(v@, spans@[k as int]));
        proof {
            lemma_byte_at_monotone(v@, a as int, v@.len() as int);
            lemma_byte_at_monotone(v@, z as int, v@.len() as int);
            lemma_byte_at_ends(v@);
        }
        if bytes_before(v, a) <= byte && byte <= bytes_before(v, z) {
            return Some((substring(v, a, z), a, z));
        }
        k = k + 1;
    }
    None
}

/// The symbol at `path`, if its name can be changed here, or why it cannot.
pub open spec fn renameable(project: ProjectView, path: Seq<char>) -> Result<
    SymbolView,
    Seq<char>,
> {
    match project.get(path) {
        None => Err("‘"@ + path + "’ is not a renameable project symbol"@),
        Some(sym) => {
            let children = project.immediate_children(sym.path).len();
            if is_user_script(sym) {
                Ok(sym)
            } else if sym.filename is Some {
                Err(
                    "‘"@ + sym.path
                        + "’ is file-backed (DBC signal / firmware-generated); renaming it is not supported"@,
                )
            } else if !is_plain_kind(sym.kind) {
                Err(
                    "‘"@ + sym.path + "’ is a "@ + kind_label(sym.kind)
                        + "; only channels, parameters, constants and references can be renamed"@,
                )
            } else if children > 0 {
                Err(
                    "‘"@ + sym.path + "’ has "@ + decimal(children)
                        + " child component(s); renaming a compound would require a cascading rename (not yet supported)"@,
                )
            } else {
                Ok(sym)
            }
        },
    }
}

fn symbol_renameable<'p>(project: &'p Project, path: &str) -> (r: Result<&'p Symbol, String>)
    ensures
        match r {
            Ok(s) => renameable(project.deep_view(), path@) == Ok::<SymbolView, Seq<char>>(
                s.deep_view(),
            ),
            Err(m) => renameable(project.deep_view(), path@) == Err::<SymbolView, Seq<char>>(m@),
        },
{
    let mut m = "‘".to_string();
    let sym = match project.get(path) {
        Some(s) => s,
        None => {
            m.append(path);
            m.append("’ is not a renameable project symbol");
            return Err(m);
        },
    };
    if is_user_authored_script(sym) {
        return Ok(sym);
    }
    m.append(sym.path.as_str());
    if sym.filename.is_some() {
        m.append(
            "’ is file-backed (DBC signal / firmware-generated); renaming it is not supported",
        );
        return Err(m);
    }
    if !plain_kind(sym.kind) {
        m.append("’ is a ");
        m.append(kind_text(sym.kind));
        m.append("; only channels, parameters, constants and references can be renamed");
        return Err(m);
    }
    let kids = project.immediate_children(sym.path.as_str());
    assert(kids@.len() == kids.deep_view().len());
    if kids.len() > 0 {
        m.append("’ has ");
        m.append(decimal_text(kids.len() as u64).as_str());
        m.append(
            " child component(s); renaming a compound would require a cascading rename (not yet supported)",
        );
        return Err(m);
    }
    Ok(sym)
}

/// The range of the last segment of the name at `byte`, if it can be changed.
pub fn prepare_m1prj(
    prj: &LineIndex,
    byte: usize,
    enc: PositionEncoding,
    project: Option<&Project>,
) -> (r: Option<Range>)
    ensures
        r == (match (project.deep_view(), name_attr(prj@, byte as int)) {
            (Some(p), Some((path, a, z))) => if renameable(p, path) is Ok {
                Some(
                    range_of(
                        prj@,
                        byte_at(prj@, z - leaf_name(path).len()) as int,
                        byte_at(prj@, z as int) as int,
                        enc,
                    ),
                )
            } else {
                None
            },
            _ => None,
        }),
{
    let p = match project {
        Some(p) => p,
        None => {
            return None;
        },
    };
    let (path, a, z) = match name_attr_at(prj, byte) {
        Some(n) => n,
        None => {
            return None;
        },
    };
    if symbol_renameable(p, path.as_str()).is_err() {
        return None;
    }
    let n: usize = chars(leaf(path.as_str()).as_str()).len();
    let v = prj.characters();
    proof {
        lemma_last_index(path@, '.', path@.len() as int);
        lemma_byte_at_monotone(v@, z - n, z as int);
        lemma_byte_at_monotone(v@, z as int, v@.len() as int);
        lemma_byte_at_ends(v@);
    }
    Some(range(bytes_before(v, z - n), bytes_before(v, z), prj, enc))
}

/// Why a name is refused.
pub open spec fn bad_name(name: Seq<char>) -> Seq<char> {
    "‘"@ + name
        + "’ is not a valid M1 symbol name (letters, digits, spaces, underscore; no dots or quotes)"@
}

pub(crate) fn bad_name_text(name: &str) -> (r: String)
    ensures
        r@ == bad_name(name@),
{
    let mut m = "‘".to_string();
    m.append(name);
    m.append(
        "’ is not a valid M1 symbol name (letters, digits, spaces, underscore; no dots or quotes)",
    );
    m
}

/// The rename of the component whose name byte `b` of the project file touches.
pub open spec fn m1prj_rename(
    prj: Seq<char>,
    b: int,
    new_name: Seq<char>,
    prj_uri: Seq<char>,
    loaded: LoadedProjectView,
    scripts: Seq<ScriptView>,
    enc: PositionEncoding,
) -> Result<WorkspaceEditView, Seq<char>> {
    match name_attr(prj, b) {
        None => Err("place the cursor on a component Name in the project file"@),
        Some((path, a, z)) => match renameable(loaded.project, path) {
            Err(m) => Err(m),
            Ok(sym) => {
                let name = trimmed(new_name);
                if !is_symbol_name(name) {
                    Err(bad_name(name))
                } else if is_user_script(sym) {
                    script_rename(loaded, sym, name, Some(prj), scripts, enc)
                } else {
                    match name_conflict(loaded.project, path, name) {
                        Some(m) => Err(m),
                        None => leaf_rename(
                            loaded.project,
                            path,
                            name,
                            prj_uri,
                            prj,
                            scripts,
                            enc,
                        ),
                    }
                }
            },
        },
    }
}

/// Renames the component whose name `byte` of the project file touches: its declaration and
/// every reference to it. `prj` is the text of the project file.
pub fn execute_m1prj(
    prj: &LineIndex,
    byte: usize,
    new_name: &str,
    prj_uri: &str,
    enc: PositionEncoding,
    loaded: &LoadedProject,
    scripts: &Vec<Script>,
) -> (r: Result<WorkspaceEdit, String>)
    ensures
        outcome(r) == m1prj_rename(
            prj@,
            byte as int,
            new_name@,
            prj_uri@,
            loaded.deep_view(),
            scripts.deep_view(),
            enc,
        ),
{
    let project = &loaded.project;
    let (path, a, z) = match name_attr_at(prj, byte) {
        Some(n) => n,
        None => {
            return Err("place the cursor on a component Name in the project file".to_string());
        },
    };
    let sym = match symbol_renameable(project, path.as_str()) {
        Ok(s) => s,
        Err(m) => {
            return Err(m);
        },
    };
    let name = string(&trim(&chars(new_name)));
    if !is_valid_symbol_name(name.as_str()) {
        return Err(bad_name_text(name.as_str()));
    }
    if is_user_authored_script(sym) {
        return execute_func_method(sym, name.as_str(), enc, loaded, Some(prj), scripts);
    }
    if let Some(m) = check_new_name(project, path.as_str(), name.as_str()) {
        return Err(m);
    }
    rename_leaf(project, path.as_str(), name.as_str(), prj_uri, prj, scripts, enc)
}

} // verus!
