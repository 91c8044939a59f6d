//! What completion offers.
use crate::completion::{
    assigned_before, CompletionItemKind, CompletionItemView, completions_at, cursor_index,
    detail_text, enum_items, enum_items_upto, keyword_item, keywords_upto, local_items_upto,
    message_at, method_item, methods_upto, objects_upto, offered_before, param_names,
    parent_before, run_end, run_start, scope_items, signal_items, signals_upto, skeleton,
    smallest_upto, spaced_parent_before, symbol_items, symbols_upto, tab_stops, unrooted,
    words_upto,
};
use crate::edits::TextEditView;
use crate::format::{decimal, digit, signed_decimal};
use crate::hover::symbol::value_type_name;
use crate::laws::{lemma_either_holds, lemma_holds_back, lemma_holds_front, lemma_pushed_holds};
use crate::laws::text::{is_written_char, lemma_run_start};
use crate::line_index::{line_start, PositionEncoding, Range, range_of};
use crate::locate::locals_of;
use crate::model::{
    EnumTypeView, IntrinsicsView, LibraryObjectView, OverloadView, ProjectView, ScopeView,
    SymbolView, ValueType,
};
use crate::search::{begins, ends, has, joined, last_index, lemma_last_index, trimmed, trimmed_end};
use crate::syntax::{Kind, Tree};
use crate::text::byte_at;
use vstd::prelude::*;
use vstd::string::*;

verus! {

// ---------------------------------------------------------------------------
// Symbols
// ---------------------------------------------------------------------------

/// One of the items offers the path, in the place of what is typed.
pub open spec fn offers_path(items: Seq<CompletionItemView>, path: Seq<char>, r: Range) -> bool {
    exists|x: CompletionItemView| #[trigger]
        items.contains(x) && x.label == path && x.kind == CompletionItemKind::Field && x.filter_text
            == Some(path) && x.text_edit == Some(TextEditView { range: r, new_text: path })
}

/// `rel` is the path without its root.
pub open spec fn is_short_for(rel: Seq<char>, path: Seq<char>) -> bool {
    path == "Root."@ + rel || (path == rel && !begins(path, "Root."@))
}

proof fn lemma_short(rel: Seq<char>, path: Seq<char>)
    requires
        is_short_for(rel, path),
    ensures
        unrooted(path) == rel,
{
    let root = "Root."@;
    if path == root + rel {
        assert(path.subrange(0, root.len() as int) =~= root);
        assert(path.skip(root.len() as int) =~= rel);
    }
}

proof fn lemma_symbols_hold(
    p: ProjectView,
    group: Option<Seq<char>>,
    r: Range,
    n: int,
    k: int,
    x: CompletionItemView,
)
    requires
        0 <= k < n <= p.symbols.len(),
        symbol_items(p.symbols[k], p, group, r).contains(x),
    ensures
        symbols_upto(p, group, r, n).contains(x),
    decreases n,
{
    lemma_either_holds(symbols_upto(p, group, r, n - 1), symbol_items(p.symbols[n - 1], p, group, r), x);
    if k < n - 1 {
        lemma_symbols_hold(p, group, r, n - 1, k, x);
    }
}

/// Every symbol of the project is offered by its path without the root, whatever its kind; and
/// every one below the group of the script by its path in the group, too.
pub proof fn every_symbol_is_offered(
    t: Tree,
    p: ProjectView,
    group: Option<Seq<char>>,
    text: Seq<char>,
    i: int,
    s: Seq<char>,
    enc: PositionEncoding,
    intr: IntrinsicsView,
    k: int,
    rel: Seq<char>,
)
    requires
        0 <= k < p.symbols.len(),
        is_short_for(rel, p.symbols[k].path),
        rel.len() > 0,
    ensures
        ({
            let items = scope_items(t, Some(p), group, text, i, s, enc, intr);
            let r = range_of(
                s,
                byte_at(text, run_start(text, false, i)) as int,
                byte_at(text, run_end(text, i)) as int,
                enc,
            );
            &&& offers_path(items, rel, r)
            &&& forall|g: Seq<char>, tail: Seq<char>|
                group == Some(g) && p.symbols[k].path == #[trigger] (g + "."@ + tail) ==> offers_path(
                    items,
                    tail,
                    r,
                )
        }),
{
    let sym = p.symbols[k];
    let items = scope_items(t, Some(p), group, text, i, s, enc, intr);
    let r = range_of(
        s,
        byte_at(text, run_start(text, false, i)) as int,
        byte_at(text, run_end(text, i)) as int,
        enc,
    );
    lemma_short(rel, sym.path);
    let own = symbol_items(sym, p, group, r);
    let n = p.symbols.len() as int;
    let locals = locals_of(t, Seq::empty());
    let front = objects_upto(intr.library, intr.library.len() as int) + keywords_upto(
        intr.keywords,
        intr.keywords.len() as int,
    ) + local_items_upto(locals, locals.len() as int);
    assert(own.len() > 0);
    let x = own[0];
    assert(own.contains(x));
    lemma_symbols_hold(p, group, r, n, k, x);
    lemma_either_holds(front, symbols_upto(p, group, r, n), x);
    assert(items.contains(x));
    assert(x.label == rel);
    assert forall|g: Seq<char>, tail: Seq<char>|
        group == Some(g) && sym.path == #[trigger] (g + "."@ + tail) implies offers_path(
        items,
        tail,
        r,
    ) by {
        let d = g + "."@;
        assert(sym.path.subrange(0, d.len() as int) =~= d);
        assert(sym.path.skip(d.len() as int) =~= tail);
        assert(own.len() == 2);
        let y = own[1];
        assert(own.contains(y));
        lemma_symbols_hold(p, group, r, n, k, y);
        lemma_either_holds(front, symbols_upto(p, group, r, n), y);
        assert(items.contains(y));
        assert(y.label == tail);
    }
}

// ---------------------------------------------------------------------------
// Locals, library objects and keywords
// ---------------------------------------------------------------------------

/// One of the items is of that kind and has that label.
pub open spec fn offers(items: Seq<CompletionItemView>, label: Seq<char>, kind: CompletionItemKind) -> bool {
    exists|x: CompletionItemView| #[trigger] items.contains(x) && x.label == label && x.kind == kind
}

proof fn lemma_locals_hold(locals: Seq<(Seq<char>, ValueType)>, n: int, k: int)
    requires
        0 <= k < n <= locals.len(),
    ensures
        offers(local_items_upto(locals, n), locals[k].0, CompletionItemKind::Variable),
    decreases n,
{
    let all = local_items_upto(locals, n);
    let rest = local_items_upto(locals, n - 1);
    if k == n - 1 {
        let x = all[rest.len() as int];
        assert(all.contains(x) && x.label == locals[k].0);
    } else {
        lemma_locals_hold(locals, n - 1, k);
        let x = choose|x: CompletionItemView| #[trigger]
            rest.contains(x) && x.label == locals[k].0 && x.kind == CompletionItemKind::Variable;
        lemma_pushed_holds(rest, all[rest.len() as int], x);
        assert(all.contains(x));
    }
}

proof fn lemma_objects_hold(objs: Seq<LibraryObjectView>, n: int, k: int)
    requires
        0 <= k < n <= objs.len(),
        objs[k].functions.len() == 0 || exists|j: int|
            0 <= j < objs[k].functions.len() && !(#[trigger] objs[k].functions[j]).calibration_only,
    ensures
        offers(objects_upto(objs, n), objs[k].name, CompletionItemKind::Module),
    decreases n,
{
    let all = objects_upto(objs, n);
    let rest = objects_upto(objs, n - 1);
    if k == n - 1 {
        let x = all[rest.len() as int];
        assert(all.contains(x) && x.label == objs[k].name);
    } else {
        lemma_objects_hold(objs, n - 1, k);
        let x = choose|x: CompletionItemView| #[trigger]
            rest.contains(x) && x.label == objs[k].name && x.kind == CompletionItemKind::Module;
        if all.len() > rest.len() {
            lemma_pushed_holds(rest, all[rest.len() as int], x);
        }
        assert(all.contains(x));
    }
}

proof fn lemma_words_hold(words: Seq<Seq<char>>, n: int, k: int)
    requires
        0 <= k < n <= words.len(),
    ensures
        offers(words_upto(words, n), words[k], CompletionItemKind::Keyword),
    decreases n,
{
    let all = words_upto(words, n);
    let rest = words_upto(words, n - 1);
    if k == n - 1 {
        let x = all[rest.len() as int];
        assert(all.contains(x) && x.label == words[k]);
    } else {
        lemma_words_hold(words, n - 1, k);
        let x = choose|x: CompletionItemView| #[trigger]
            rest.contains(x) && x.label == words[k] && x.kind == CompletionItemKind::Keyword;
        lemma_pushed_holds(rest, all[rest.len() as int], x);
        assert(all.contains(x));
    }
}

proof fn lemma_keywords_hold(groups: Seq<Seq<Seq<char>>>, n: int, g: int, k: int)
    requires
        0 <= g < n <= groups.len(),
        0 <= k < groups[g].len(),
    ensures
        offers(keywords_upto(groups, n), groups[g][k], CompletionItemKind::Keyword),
    decreases n,
{
    let rest = keywords_upto(groups, n - 1);
    let here = words_upto(groups[n - 1], groups[n - 1].len() as int);
    let word = groups[g][k];
    if g == n - 1 {
        lemma_words_hold(groups[g], groups[g].len() as int, k);
        let x = choose|x: CompletionItemView| #[trigger]
            here.contains(x) && x.label == word && x.kind == CompletionItemKind::Keyword;
        lemma_either_holds(rest, here, x);
        assert(keywords_upto(groups, n).contains(x));
    } else {
        lemma_keywords_hold(groups, n - 1, g, k);
        let x = choose|x: CompletionItemView| #[trigger]
            rest.contains(x) && x.label == word && x.kind == CompletionItemKind::Keyword;
        lemma_either_holds(rest, here, x);
        assert(keywords_upto(groups, n).contains(x));
    }
}

/// Every local, every keyword, and every library object that a script can call something of
/// is offered.
pub proof fn everything_in_scope_is_offered(
    t: Tree,
    project: Option<ProjectView>,
    group: Option<Seq<char>>,
    text: Seq<char>,
    i: int,
    s: Seq<char>,
    enc: PositionEncoding,
    intr: IntrinsicsView,
)
    ensures
        ({
            let items = scope_items(t, project, group, text, i, s, enc, intr);
            let locals = locals_of(t, Seq::empty());
            &&& forall|k: int|
                0 <= k < locals.len() ==> offers(
                    items,
                    (#[trigger] locals[k]).0,
                    CompletionItemKind::Variable,
                )
            &&& forall|g: int, k: int|
                0 <= g < intr.keywords.len() && 0 <= k < intr.keywords[g].len() ==> offers(
                    items,
                    #[trigger] intr.keywords[g][k],
                    CompletionItemKind::Keyword,
                )
            &&& forall|k: int, j: int|
                0 <= k < intr.library.len() && 0 <= j < intr.library[k].functions.len() && !(
                #[trigger] intr.library[k].functions[j]).calibration_only ==> offers(
                    items,
                    intr.library[k].name,
                    CompletionItemKind::Module,
                )
        }),
{
    let items = scope_items(t, project, group, text, i, s, enc, intr);
    let locals = locals_of(t, Seq::empty());
    let a = objects_upto(intr.library, intr.library.len() as int);
    let b = keywords_upto(intr.keywords, intr.keywords.len() as int);
    let c = local_items_upto(locals, locals.len() as int);
    let d = match project {
        Some(p) => symbols_upto(
            p,
            group,
            range_of(
                s,
                byte_at(text, run_start(text, false, i)) as int,
                byte_at(text, run_end(text, i)) as int,
                enc,
            ),
            p.symbols.len() as int,
        ),
        None => Seq::empty(),
    };
    assert(items =~= a + b + c + d);
    assert forall|x: CompletionItemView| a.contains(x) || b.contains(x) || c.contains(x) implies #[trigger]
        items.contains(x) by {
        lemma_either_holds(a, b, x);
        lemma_either_holds(a + b, c, x);
        lemma_either_holds(a + b + c, d, x);
    }
    assert forall|k: int| 0 <= k < locals.len() implies offers(
        items,
        (#[trigger] locals[k]).0,
        CompletionItemKind::Variable,
    ) by {
        lemma_locals_hold(locals, locals.len() as int, k);
        let x = choose|x: CompletionItemView| #[trigger]
            c.contains(x) && x.label == locals[k].0 && x.kind == CompletionItemKind::Variable;
        assert(items.contains(x));
    }
    assert forall|g: int, k: int|
        0 <= g < intr.keywords.len() && 0 <= k < intr.keywords[g].len() implies offers(
        items,
        #[trigger] intr.keywords[g][k],
        CompletionItemKind::Keyword,
    ) by {
        lemma_keywords_hold(intr.keywords, intr.keywords.len() as int, g, k);
        let x = choose|x: CompletionItemView| #[trigger]
            b.contains(x) && x.label == intr.keywords[g][k] && x.kind
                == CompletionItemKind::Keyword;
        assert(items.contains(x));
    }
    assert forall|k: int, j: int|
        0 <= k < intr.library.len() && 0 <= j < intr.library[k].functions.len() && !(
        #[trigger] intr.library[k].functions[j]).calibration_only implies offers(
        items,
        intr.library[k].name,
        CompletionItemKind::Module,
    ) by {
        lemma_objects_hold(intr.library, intr.library.len() as int, k);
        let x = choose|x: CompletionItemView| #[trigger]
            a.contains(x) && x.label == intr.library[k].name && x.kind
                == CompletionItemKind::Module;
        assert(items.contains(x));
    }
}

proof fn lemma_objects_are(objs: Seq<LibraryObjectView>, n: int, x: CompletionItemView)
    requires
        0 <= n <= objs.len(),
        objects_upto(objs, n).contains(x),
    ensures
        x.kind == CompletionItemKind::Module,
        exists|k: int|
            0 <= k < n && (#[trigger] objs[k]).name == x.label && (objs[k].functions.len() == 0
                || exists|j: int|
                0 <= j < objs[k].functions.len() && !(#[trigger] objs[k].functions[j]).calibration_only),
    decreases n,
{
    if n <= 0 {
        assert(objects_upto(objs, n) =~= Seq::empty());
    } else {
        let all = objects_upto(objs, n);
        let rest = objects_upto(objs, n - 1);
        if all.len() > rest.len() {
            lemma_pushed_holds(rest, all[rest.len() as int], x);
        }
        if rest.contains(x) {
            lemma_objects_are(objs, n - 1, x);
        } else {
            assert(objs[n - 1].name == x.label);
        }
    }
}

/// No library object is offered of which a script can call nothing.
pub proof fn calibration_objects_are_not_offered(
    intr: IntrinsicsView,
    x: CompletionItemView,
)
    requires
        objects_upto(intr.library, intr.library.len() as int).contains(x),
    ensures
        exists|k: int|
            0 <= k < intr.library.len() && (#[trigger] intr.library[k]).name == x.label && (
            intr.library[k].functions.len() == 0 || exists|j: int|
                0 <= j < intr.library[k].functions.len() && !(
                #[trigger] intr.library[k].functions[j]).calibration_only),
{
    lemma_objects_are(intr.library, intr.library.len() as int, x);
}

/// A construct keyword inserts a skeleton that starts with the word; other words insert
/// themselves.
pub proof fn skeletons_start_with_their_word(word: Seq<char>)
    ensures
        match skeleton(word) {
            Some(body) => begins(body, word) && (word == "if"@ || word == "when"@ || word == "expand"@
                || word == "local"@ || word == "static"@),
            None => word != "if"@ && word != "when"@ && word != "expand"@ && word != "local"@ && word
                != "static"@,
        },
        keyword_item(word).is_snippet <==> skeleton(word) is Some,
        keyword_item(word).insert_text == skeleton(word),
{
    reveal_strlit("if");
    reveal_strlit("when");
    reveal_strlit("expand");
    reveal_strlit("local");
    reveal_strlit("static");
    reveal_strlit("if (${1:condition})\n{\n\t$0\n}");
    reveal_strlit("when (${1:subject})\n{\n\tis (${2:Value})\n\t{\n\t\t$0\n\t}\n}");
    reveal_strlit("expand (${1:i} = ${2:0} to ${3:count})\n{\n\t$0\n}");
    reveal_strlit("local ${1:name} = ${2:0};$0");
    reveal_strlit("static local ${1:name} = ${2:0};$0");
    if let Some(body) = skeleton(word) {
        assert(body.subrange(0, word.len() as int) =~= word);
    }
}

// ---------------------------------------------------------------------------
// Methods, signals and members
// ---------------------------------------------------------------------------

proof fn lemma_methods(fs: Seq<OverloadView>, n: int, name: Seq<char>)
    requires
        0 <= n <= fs.len(),
    ensures
        (exists|j: int| 0 <= j < n && !(#[trigger] fs[j]).calibration_only && fs[j].name == name)
            <==> (exists|i: int|
            0 <= i < methods_upto(fs, n).len() && (#[trigger] methods_upto(fs, n)[i]).label == name),
        forall|a: int, b: int|
            0 <= a < b < methods_upto(fs, n).len() ==> (#[trigger] methods_upto(fs, n)[a]).label != (
            #[trigger] methods_upto(fs, n)[b]).label,
        forall|i: int|
            0 <= i < methods_upto(fs, n).len() ==> (#[trigger] methods_upto(fs, n)[i]).kind
                == CompletionItemKind::Method,
    decreases n,
{
    let all = methods_upto(fs, n);
    if n > 0 {
        lemma_methods(fs, n - 1, name);
        lemma_methods(fs, n - 1, fs[n - 1].name);
        let rest = methods_upto(fs, n - 1);
        if !fs[n - 1].calibration_only && !offered_before(fs, fs[n - 1].name, n - 1) {
            assert(all == rest.push(method_item(fs[n - 1])));
            assert forall|a: int, b: int| 0 <= a < b < all.len() implies (#[trigger] all[a]).label != (
            #[trigger] all[b]).label by {
                if b == rest.len() {
                    if rest[a].label == fs[n - 1].name {
                        assert(exists|i: int|
                            0 <= i < rest.len() && (#[trigger] rest[i]).label == fs[n - 1].name);
                    }
                } else {
                    assert(rest[a].label != rest[b].label);
                }
            }
            assert forall|i: int| 0 <= i < all.len() implies (#[trigger] all[i]).kind
                == CompletionItemKind::Method by {
                if i < rest.len() {
                    assert(rest[i].kind == CompletionItemKind::Method);
                }
            }
            if exists|j: int| 0 <= j < n && !(#[trigger] fs[j]).calibration_only && fs[j].name == name {
                let j = choose|j: int|
                    0 <= j < n && !(#[trigger] fs[j]).calibration_only && fs[j].name == name;
                if j == n - 1 {
                    assert(all[rest.len() as int].label == name);
                } else {
                    assert(0 <= j < n - 1 && !fs[j].calibration_only);
                    let i = choose|i: int| 0 <= i < rest.len() && (#[trigger] rest[i]).label == name;
                    assert(all[i].label == name);
                }
            }
            if exists|i: int| 0 <= i < all.len() && (#[trigger] all[i]).label == name {
                let i = choose|i: int| 0 <= i < all.len() && (#[trigger] all[i]).label == name;
                if i < rest.len() {
                    assert(rest[i].label == name);
                } else {
                    assert(!fs[n - 1].calibration_only && fs[n - 1].name == name);
                }
            }
        } else {
            assert(all == rest);
            if exists|j: int| 0 <= j < n && !(#[trigger] fs[j]).calibration_only && fs[j].name == name {
                let j = choose|j: int|
                    0 <= j < n && !(#[trigger] fs[j]).calibration_only && fs[j].name == name;
                if j == n - 1 {
                    let m = choose|m: int|
                        0 <= m < n - 1 && !(#[trigger] fs[m]).calibration_only && fs[m].name == name;
                    assert(0 <= m < n - 1 && !fs[m].calibration_only && fs[m].name == name);
                } else {
                    assert(0 <= j < n - 1 && !fs[j].calibration_only);
                }
            }
        }
    }
}

/// Behind a library object its functions are offered: each name that a script can call, once,
/// and no other.
pub proof fn methods_are_offered_once(fs: Seq<OverloadView>, name: Seq<char>)
    ensures
        ({
            let items = methods_upto(fs, fs.len() as int);
            &&& (exists|j: int|
                0 <= j < fs.len() && !(#[trigger] fs[j]).calibration_only && fs[j].name == name)
                <==> (exists|i: int| 0 <= i < items.len() && (#[trigger] items[i]).label == name)
            &&& forall|a: int, b: int|
                0 <= a < b < items.len() ==> (#[trigger] items[a]).label != (#[trigger] items[b]).label
        }),
{
    lemma_methods(fs, fs.len() as int, name);
}

/// A call is inserted as a snippet: the name, and in parentheses a tab stop for each
/// parameter. Its detail says the parameters and what it returns.
pub proof fn calls_have_tab_stops(ov: OverloadView)
    ensures
        ({
            let x = method_item(ov);
            &&& x.label == ov.name && x.is_snippet && x.insert_text is Some && x.detail is Some
            &&& begins(x.insert_text.unwrap(), ov.name + "("@)
            &&& ends(x.insert_text.unwrap(), ")"@)
            &&& ov.params.len() == 0 ==> x.insert_text == Some(ov.name + "()"@) && x.detail == Some(
                "() -> "@ + ov.returns,
            )
            &&& ov.params.len() == 1 ==> x.insert_text == Some(
                ov.name + "(${1:"@ + ov.params[0].name + "})"@,
            ) && x.detail == Some("("@ + ov.params[0].name + ") -> "@ + ov.returns)
            &&& ov.params.len() == 2 ==> x.insert_text == Some(
                ov.name + "(${1:"@ + ov.params[0].name + "}, ${2:"@ + ov.params[1].name + "})"@,
            )
            &&& ends(x.detail.unwrap(), ") -> "@ + ov.returns)
            &&& ov.doc.len() > 0 ==> x.documentation == Some(ov.doc)
            &&& ov.doc.len() == 0 ==> x.documentation is None
        }),
{
    reveal_strlit("(");
    reveal_strlit(")");
    reveal_strlit("()");
    reveal_strlit("${");
    reveal_strlit(":");
    reveal_strlit("}");
    reveal_strlit(", ");
    reveal_strlit(") -> ");
    reveal_strlit("() -> ");
    reveal_strlit("(${1:");
    reveal_strlit("})");
    reveal_strlit("}, ${2:");
    let x = method_item(ov);
    let n = ov.params.len() as int;
    let stops = tab_stops(ov.params, n);
    let names = param_names(ov.params, n);
    let text = x.insert_text.unwrap();
    let inner = joined(stops, ", "@);
    assert(text.subrange(0, ov.name.len() as int + 1) =~= ov.name + "("@);
    assert(text.subrange(text.len() - 1, text.len() as int) =~= ")"@);
    let d = x.detail.unwrap();
    let tail = ") -> "@ + ov.returns;
    assert(d.subrange(d.len() - tail.len(), d.len() as int) =~= tail);
    lemma_small_decimals();
    if n == 0 {
        assert(stops =~= Seq::empty());
        assert(names =~= Seq::empty());
        assert(text =~= ov.name + "()"@);
        assert(d =~= "() -> "@ + ov.returns);
    } else if n == 1 {
        let a = ov.params[0].name;
        assert(tab_stops(ov.params, 0) =~= Seq::empty());
        assert(param_names(ov.params, 0) =~= Seq::empty());
        assert(stops =~= seq!["${"@ + decimal(1) + ":"@ + a + "}"@]);
        assert(names =~= seq![a]);
        assert(text =~= ov.name + "(${1:"@ + a + "})"@);
        assert(d =~= "("@ + a + ") -> "@ + ov.returns);
    } else if n == 2 {
        let a = ov.params[0].name;
        let b = ov.params[1].name;
        assert(tab_stops(ov.params, 0) =~= Seq::empty());
        assert(tab_stops(ov.params, 1) =~= seq!["${"@ + decimal(1) + ":"@ + a + "}"@]);
        assert(stops.drop_last() =~= tab_stops(ov.params, 1));
        assert(stops.last() == "${"@ + decimal(2) + ":"@ + b + "}"@);
        assert(joined(tab_stops(ov.params, 1), ", "@) == tab_stops(ov.params, 1)[0]);
        assert(text =~= ov.name + "(${1:"@ + a + "}, ${2:"@ + b + "})"@);
    }
}

proof fn lemma_small_decimals()
    ensures
        decimal(1) == seq!['1'],
        decimal(2) == seq!['2'],
{
    assert(digit(1) == '1');
    assert(digit(2) == '2');
    assert(decimal(1) =~= seq!['1']);
    assert(decimal(2) =~= seq!['2']);
}

/// On the right side of an assignment to a symbol of an enumeration its members are offered,
/// each with its value.
pub proof fn members_are_offered(e: EnumTypeView, n: int, k: int)
    requires
        0 <= k < n <= e.members.len(),
    ensures
        enum_items_upto(e, n).len() == n,
        enum_items_upto(e, n)[k].label == e.name + "."@ + e.members[k].0,
        enum_items_upto(e, n)[k].kind == CompletionItemKind::EnumMember,
        enum_items_upto(e, n)[k].detail == Some("= "@ + signed_decimal(e.members[k].1 as int)),
    decreases n,
{
    if k < n - 1 {
        members_are_offered(e, n - 1, k);
    } else if n > 1 {
        members_are_offered(e, n - 1, 0);
    } else {
        assert(enum_items_upto(e, 0) =~= Seq::empty());
    }
}

/// Behind a CAN message its signals are offered by their last segments.
pub proof fn signals_are_offered(sigs: Seq<SymbolView>, project: ProjectView, n: int, k: int, head: Seq<char>, name: Seq<char>)
    requires
        0 <= k < n <= sigs.len(),
        sigs[k].path == head + "."@ + name,
        !name.contains('.'),
    ensures
        offers(signals_upto(sigs, project, n), name, CompletionItemKind::Field),
    decreases n,
{
    let all = signals_upto(sigs, project, n);
    let rest = signals_upto(sigs, project, n - 1);
    if k == n - 1 {
        reveal_strlit(".");
        let path = sigs[k].path;
        let i = head.len() as int;
        lemma_last_index(path, '.', path.len() as int);
        assert(path[i] == '.');
        assert forall|j: int| i < j < path.len() implies path[j] != '.' by {
            assert(path[j] == name[j - i - 1]);
            assert(name.contains(name[j - i - 1]));
        }
        assert(last_index(path, '.', path.len() as int) == Some(i));
        assert(path.skip(i + 1) =~= name);
        let x = all[rest.len() as int];
        assert(all.contains(x) && x.label == name);
    } else {
        signals_are_offered(sigs, project, n - 1, k, head, name);
        let x = choose|x: CompletionItemView| #[trigger]
            rest.contains(x) && x.label == name && x.kind == CompletionItemKind::Field;
        if all.len() > rest.len() {
            lemma_pushed_holds(rest, all[rest.len() as int], x);
        }
        assert(all.contains(x));
    }
}

/// The detail of a symbol says its type, its unit and its access level. A symbol of no known
/// type has none.
pub proof fn details_say_type_and_unit(sym: SymbolView, p: ProjectView)
    ensures
        sym.value_type == ValueType::Unknown ==> detail_text(sym, p) is None,
        forall|unit: Seq<char>|
            sym.unit == Some(unit) && detail_text(sym, p) is Some ==> #[trigger] has(
                detail_text(sym, p).unwrap(),
                " · "@ + unit,
            ),
        forall|level: Seq<char>|
            sym.security == Some(level) && detail_text(sym, p) is Some ==> #[trigger] ends(
                detail_text(sym, p).unwrap(),
                " · "@ + level,
            ),
        sym.value_type == ValueType::Boolean ==> detail_text(sym, p) is Some && begins(
            detail_text(sym, p).unwrap(),
            "Boolean"@,
        ),
        sym.value_type == ValueType::Integer ==> detail_text(sym, p) is Some && begins(
            detail_text(sym, p).unwrap(),
            "Integer"@,
        ),
        sym.value_type == ValueType::Unsigned ==> detail_text(sym, p) is Some && begins(
            detail_text(sym, p).unwrap(),
            "Unsigned"@,
        ),
        sym.value_type == ValueType::Float ==> detail_text(sym, p) is Some && begins(
            detail_text(sym, p).unwrap(),
            "Float"@,
        ),
        sym.value_type == ValueType::String ==> detail_text(sym, p) is Some && begins(
            detail_text(sym, p).unwrap(),
            "String"@,
        ),
        forall|id: usize|
            sym.value_type == ValueType::Enum(id) && id < p.enums.len() ==> detail_text(sym, p) is Some
                && begins(detail_text(sym, p).unwrap(), "Enum ("@ + (#[trigger] p.enums[id as int]).name + ")"@),
{
    if let Some(d) = detail_text(sym, p) {
        let ty = match sym.value_type {
            ValueType::Enum(id) => "Enum ("@ + p.enums[id as int].name + ")"@,
            other => value_type_name(other),
        };
        let dot = " · "@;
        let s = match sym.unit {
            Some(u) => ty + dot + u,
            None => ty,
        };
        if let Some(u) = sym.unit {
            assert(s =~= ty + (dot + u));
            lemma_holds_back(ty, dot + u);
        }
        if let Some(level) = sym.security {
            assert(d =~= s + (dot + level));
            assert(d.subrange(d.len() - (dot + level).len(), d.len() as int) =~= dot + level);
            if let Some(u) = sym.unit {
                lemma_holds_front(s, dot + level, dot + u);
            }
        }
        assert(d.subrange(0, ty.len() as int) =~= ty);
    }
}

// ---------------------------------------------------------------------------
// Which of them
// ---------------------------------------------------------------------------

proof fn lemma_smallest(t: Tree, b: int, k: int)
    requires
        0 <= k <= t.size() <= usize::MAX,
    ensures
        match smallest_upto(t, b, k) {
            Some(n) => n < k && t.start(n) <= b < t.end(n) && forall|m: usize|
                m < k && t.start(m) <= b < #[trigger] t.end(m) ==> t.end(n) - t.start(n) <= t.end(m)
                    - t.start(m),
            None => forall|m: usize| m < k ==> !(t.start(m) <= b < #[trigger] t.end(m)),
        },
    decreases k,
{
    if k > 0 {
        lemma_smallest(t, b, k - 1);
    }
}

/// Nothing is offered in a comment or in a string: where the smallest node that holds the
/// cursor is one, or where there is no other.
pub proof fn nothing_is_offered_in_prose(
    t: Tree,
    project: Option<ProjectView>,
    targets: ScopeView,
    text: Seq<char>,
    b: int,
    s: Seq<char>,
    enc: PositionEncoding,
    intr: IntrinsicsView,
    n: usize,
)
    requires
        t.wf(),
        t.has(n),
        t.start(n) <= b < t.end(n),
        t.kind(n) == Kind::LineComment || t.kind(n) == Kind::BlockComment || t.kind(n)
            == Kind::String || t.kind(n) == Kind::Interpolation,
        forall|m: usize|
            t.has(m) && t.start(m) <= b < #[trigger] t.end(m) && m != n ==> t.end(n) - t.start(n)
                < t.end(m) - t.start(m),
    ensures
        completions_at(t, project, targets, text, b, s, enc, intr).len() == 0,
{
    lemma_smallest(t, b, t.size() as int);
    let m = smallest_upto(t, b, t.size() as int).unwrap();
    if m != n {
        assert(t.has(m));
        assert(t.end(n) - t.start(n) < t.end(m) - t.start(m));
    }
}

/// In code the offers are those of the library object in front of the last dot; or else of
/// the message there; or else of the enumeration that is assigned to; or else of everything in
/// scope.
pub proof fn offers_follow_the_cursor(
    t: Tree,
    p: ProjectView,
    targets: ScopeView,
    text: Seq<char>,
    b: int,
    s: Seq<char>,
    enc: PositionEncoding,
    intr: IntrinsicsView,
)
    requires
        t.wf(),
        forall|m: usize|
            t.has(m) && t.start(m) <= b < #[trigger] t.end(m) ==> t.kind(m) != Kind::LineComment
                && t.kind(m) != Kind::BlockComment && t.kind(m) != Kind::String && t.kind(m)
                != Kind::Interpolation,
    ensures
        ({
            let i = cursor_index(text, b);
            let items = completions_at(t, Some(p), targets, text, b, s, enc, intr);
            let object = match parent_before(text, i) {
                Some(parent) => intr.library_object(parent),
                None => None,
            };
            let message = match spaced_parent_before(text, i) {
                Some(parent) => message_at(p, parent),
                None => None,
            };
            let members = match assigned_before(text, i) {
                Some(lhs) => enum_items(targets.symbol(lhs), p),
                None => None,
            };
            &&& object is Some ==> items == methods_upto(
                object.unwrap().functions,
                object.unwrap().functions.len() as int,
            )
            &&& object is None && message is Some ==> items == signal_items(p, message.unwrap())
            &&& object is None && message is None && members is Some ==> items == members.unwrap()
            &&& object is None && message is None && members is None ==> items == scope_items(
                t,
                Some(p),
                targets.group,
                text,
                i,
                s,
                enc,
                intr,
            )
        }),
{
    lemma_smallest(t, b, t.size() as int);
    if let Some(n) = smallest_upto(t, b, t.size() as int) {
        assert(t.has(n));
    }
}

/// On a line that reads `left = right` the cursor in `right` stands on the right side of an
/// assignment to `left`, unless the sign belongs to a comparison.
pub proof fn assignments_are_seen(s: Seq<char>, i: int, left: Seq<char>, right: Seq<char>)
    requires
        0 <= i <= s.len(),
        s.subrange(line_start(s, i), i) == left + "="@ + right,
        !right.contains('='),
        trimmed(left).len() > 0,
    ensures
        ({
            let l = trimmed_end(left);
            let compared = l.len() > 0 && (l.last() == '=' || l.last() == '<' || l.last() == '>'
                || l.last() == '!');
            &&& compared ==> assigned_before(s, i) is None
            &&& !compared ==> assigned_before(s, i) == Some(trimmed(left))
        }),
{
    reveal_strlit("=");
    let line = left + "="@ + right;
    let k = left.len() as int;
    lemma_last_index(line, '=', line.len() as int);
    assert(line[k] == '=');
    assert forall|j: int| k < j < line.len() implies line[j] != '=' by {
        assert(line[j] == right[j - k - 1]);
        assert(right.contains(right[j - k - 1]));
    }
    assert(last_index(line, '=', line.len() as int) == Some(k));
    assert(line.take(k) =~= left);
}

// ---------------------------------------------------------------------------
// Order and details
// ---------------------------------------------------------------------------

/// Locals come first, symbols of the project next, and library objects before keywords.
pub open spec fn is_in_its_place(x: CompletionItemView) -> bool {
    ||| x.kind == CompletionItemKind::Variable && x.sort_text == Some("0"@ + x.label)
    ||| x.kind == CompletionItemKind::Field && x.sort_text == Some("1"@ + x.label)
    ||| x.kind == CompletionItemKind::Module && x.sort_text == Some("2"@ + x.label) && x.detail
        == Some("library object"@)
    ||| x.kind == CompletionItemKind::Keyword && x.sort_text == Some("3"@ + x.label)
}

proof fn lemma_local_places(locals: Seq<(Seq<char>, ValueType)>, n: int, x: CompletionItemView)
    requires
        0 <= n <= locals.len(),
        local_items_upto(locals, n).contains(x),
    ensures
        is_in_its_place(x),
    decreases n,
{
    if n > 0 {
        let rest = local_items_upto(locals, n - 1);
        lemma_pushed_holds(rest, local_items_upto(locals, n)[rest.len() as int], x);
        if rest.contains(x) {
            lemma_local_places(locals, n - 1, x);
        }
    } else {
        assert(local_items_upto(locals, n) =~= Seq::empty());
    }
}

proof fn lemma_object_places(objs: Seq<LibraryObjectView>, n: int, x: CompletionItemView)
    requires
        0 <= n <= objs.len(),
        objects_upto(objs, n).contains(x),
    ensures
        is_in_its_place(x),
    decreases n,
{
    if n > 0 {
        let rest = objects_upto(objs, n - 1);
        let all = objects_upto(objs, n);
        if all.len() > rest.len() {
            lemma_pushed_holds(rest, all[rest.len() as int], x);
        }
        if rest.contains(x) {
            lemma_object_places(objs, n - 1, x);
        }
    } else {
        assert(objects_upto(objs, n) =~= Seq::empty());
    }
}

proof fn lemma_word_places(words: Seq<Seq<char>>, n: int, x: CompletionItemView)
    requires
        0 <= n <= words.len(),
        words_upto(words, n).contains(x),
    ensures
        is_in_its_place(x),
    decreases n,
{
    if n > 0 {
        let rest = words_upto(words, n - 1);
        lemma_pushed_holds(rest, keyword_item(words[n - 1]), x);
        if rest.contains(x) {
            lemma_word_places(words, n - 1, x);
        }
    } else {
        assert(words_upto(words, n) =~= Seq::empty());
    }
}

proof fn lemma_keyword_places(groups: Seq<Seq<Seq<char>>>, n: int, x: CompletionItemView)
    requires
        0 <= n <= groups.len(),
        keywords_upto(groups, n).contains(x),
    ensures
        is_in_its_place(x),
    decreases n,
{
    if n > 0 {
        let rest = keywords_upto(groups, n - 1);
        let here = words_upto(groups[n - 1], groups[n - 1].len() as int);
        lemma_either_holds(rest, here, x);
        if rest.contains(x) {
            lemma_keyword_places(groups, n - 1, x);
        } else {
            lemma_word_places(groups[n - 1], groups[n - 1].len() as int, x);
        }
    } else {
        assert(keywords_upto(groups, n) =~= Seq::empty());
    }
}

proof fn lemma_symbol_places(
    p: ProjectView,
    group: Option<Seq<char>>,
    r: Range,
    n: int,
    x: CompletionItemView,
)
    requires
        0 <= n <= p.symbols.len(),
        symbols_upto(p, group, r, n).contains(x),
    ensures
        is_in_its_place(x),
    decreases n,
{
    if n > 0 {
        let rest = symbols_upto(p, group, r, n - 1);
        let own = symbol_items(p.symbols[n - 1], p, group, r);
        lemma_either_holds(rest, own, x);
        if rest.contains(x) {
            lemma_symbol_places(p, group, r, n - 1, x);
        } else {
            let j = choose|j: int| 0 <= j < own.len() && own[j] == x;
            assert(j == 0 || j == 1);
        }
    } else {
        assert(symbols_upto(p, group, r, n) =~= Seq::empty());
    }
}

/// Whatever is offered in a scope is a local, a symbol of the project, a library object or a
/// keyword, and sorts in this order.
pub proof fn offers_are_in_order(
    t: Tree,
    project: Option<ProjectView>,
    group: Option<Seq<char>>,
    text: Seq<char>,
    i: int,
    s: Seq<char>,
    enc: PositionEncoding,
    intr: IntrinsicsView,
    x: CompletionItemView,
)
    requires
        scope_items(t, project, group, text, i, s, enc, intr).contains(x),
    ensures
        is_in_its_place(x),
{
    let locals = locals_of(t, Seq::empty());
    let objects = objects_upto(intr.library, intr.library.len() as int);
    let words = keywords_upto(intr.keywords, intr.keywords.len() as int);
    let names = local_items_upto(locals, locals.len() as int);
    let items = objects + words + names;
    lemma_either_holds(objects, words, x);
    lemma_either_holds(objects + words, names, x);
    if let Some(p) = project {
        let r = range_of(
            s,
            byte_at(text, run_start(text, false, i)) as int,
            byte_at(text, run_end(text, i)) as int,
            enc,
        );
        lemma_either_holds(items, symbols_upto(p, group, r, p.symbols.len() as int), x);
        if symbols_upto(p, group, r, p.symbols.len() as int).contains(x) {
            lemma_symbol_places(p, group, r, p.symbols.len() as int, x);
        }
    }
    if objects.contains(x) {
        lemma_object_places(intr.library, intr.library.len() as int, x);
    }
    if words.contains(x) {
        lemma_keyword_places(intr.keywords, intr.keywords.len() as int, x);
    }
    if names.contains(x) {
        lemma_local_places(locals, locals.len() as int, x);
    }
}

/// The offer of a symbol says its type, and the one by its path in the group its path, too.
pub proof fn symbol_offers_have_details(
    sym: SymbolView,
    p: ProjectView,
    group: Seq<char>,
    r: Range,
    rel: Seq<char>,
    tail: Seq<char>,
)
    requires
        is_short_for(rel, sym.path),
        rel.len() > 0,
    ensures
        symbol_items(sym, p, Some(group), r)[0].label == rel,
        symbol_items(sym, p, Some(group), r)[0].detail == detail_text(sym, p),
        sym.path == group + "."@ + tail ==> ({
            let items = symbol_items(sym, p, Some(group), r);
            items.len() == 2 && items[1].label == tail && match detail_text(sym, p) {
                Some(d) => items[1].detail == Some(rel + "  ·  "@ + d),
                None => items[1].detail == Some(rel),
            }
        }),
        (forall|t: Seq<char>| sym.path != #[trigger] (group + "."@ + t)) ==> symbol_items(
            sym,
            p,
            Some(group),
            r,
        ).len() == 1,
{
    lemma_short(rel, sym.path);
    let d = group + "."@;
    if sym.path == d + tail {
        assert(sym.path.subrange(0, d.len() as int) =~= d);
        assert(sym.path.skip(d.len() as int) =~= tail);
    }
    if begins(sym.path, d) {
        let t = sym.path.skip(d.len() as int);
        assert(sym.path =~= sym.path.subrange(0, d.len() as int) + t);
        assert(sym.path == group + "."@ + t);
    }
}

/// A keyword that begins a construct is offered with its skeleton, any other as it is.
pub proof fn keywords_are_offered_with_skeletons(word: Seq<char>)
    ensures
        keyword_item(word).label == word,
        keyword_item(word).insert_text == skeleton(word),
        keyword_item(word).is_snippet <==> skeleton(word) is Some,
{
}

proof fn lemma_run_end(s: Seq<char>, i: int, z: int)
    requires
        0 <= i <= z <= s.len(),
        forall|j: int| i <= j < z ==> is_written_char(#[trigger] s[j]),
        z < s.len() ==> !is_written_char(s[z]),
    ensures
        run_end(s, i) == z,
    decreases z - i,
{
    if i < z {
        assert(is_written_char(s[i]));
        lemma_run_end(s, i + 1, z);
    }
}

/// An offer takes the place of the whole path around the cursor.
pub proof fn offers_replace_the_whole_path(s: Seq<char>, a: int, i: int, z: int)
    requires
        0 <= a <= i <= z <= s.len(),
        forall|j: int| a <= j < z ==> is_written_char(#[trigger] s[j]),
        a > 0 ==> !is_written_char(s[a - 1]),
        z < s.len() ==> !is_written_char(s[z]),
    ensures
        run_start(s, false, i) == a,
        run_end(s, i) == z,
{
    lemma_run_start(s, false, a, i);
    lemma_run_end(s, i, z);
}

} // verus!
