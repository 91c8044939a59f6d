//! The parts that the features are made of, on values written out.
use m1_features::attributes::attribute_values;
use m1_features::call_hierarchy::{channel_item, script_symbol};
use m1_features::code_action::corrected_local_name;
use m1_features::code_action::nearest::{edit_distance, nearest_enum_member};
use m1_features::completion::{chain_end, chain_start};
use m1_features::document_link::document_links;
use m1_features::edits::{
    AnyTextEdit, DocumentChanges, TextDocumentEdit, TextEdit, WorkspaceEdit,
};
use m1_features::format::{compact_text, decimal_text, hex_text, signed_text};
use m1_features::goto::symbol_location;
use m1_features::hover::enums::{enum_member_markdown, enum_type_markdown};
use m1_features::hover::keywords::{primitive_type_doc, reference_keyword_doc};
use m1_features::line_index::{range, LineIndex, Position, PositionEncoding, Range};
use m1_features::model::{EnumType, LoadedProject, Project, Symbol, SymbolKind, ValueType};
use m1_features::order::{comes_before, map_push, set_insert};
use m1_features::paths::{
    contained_join, file_name, file_name_of, is_same_file, path_of_uri, same_path, with_file_name,
};
use m1_features::rename::apply::apply_workspace_edit_to;
use m1_features::rename::func::rewrite_trailing_leaf;
use m1_features::rename::group::{rename_group_segment, rewrite_filename_group_segment};
use m1_features::rename::names::{is_valid_identifier, is_valid_symbol_name};
use m1_features::rename::resolve::path_with_leaf;
use m1_features::scripts::{gather_project_scripts, Texts};
use m1_features::search::{rsplit_once, split_on, trim};
use m1_features::syntax::{Kind, NodeData, SyntaxTree};
use m1_features::text::{chars, string};

const ENC: PositionEncoding = PositionEncoding::Utf16;

fn at(line: u32, character: u32) -> Position {
    Position { line, character }
}

fn symbol(path: &str, kind: SymbolKind) -> Symbol {
    Symbol {
        path: path.to_string(),
        kind,
        class: None,
        value_type: ValueType::Float,
        declared_type: None,
        classname: None,
        unit: None,
        security: None,
        filename: None,
        call_rate: None,
        log_rate: None,
        tags: Vec::new(),
        table_meta: None,
        can: None,
        dbc_range: None,
        def_line: None,
    }
}

fn project(symbols: Vec<Symbol>, enums: Vec<EnumType>) -> Project {
    Project { symbols, enums }
}

// ---------------------------------------------------------------------------
// Positions
// ---------------------------------------------------------------------------

#[test]
fn positions_count_units_of_the_encoding() {
    let li = LineIndex::new("aé𝄞b\nc\r\n");
    let utf16: Vec<Position> = [0, 1, 3, 7, 8, 9, 10].map(|b| li.position(b, ENC)).to_vec();
    assert_eq!(
        utf16,
        vec![at(0, 0), at(0, 1), at(0, 2), at(0, 4), at(0, 5), at(1, 0), at(1, 1)]
    );
    let utf8: Vec<Position> =
        [0, 1, 3, 7, 8].map(|b| li.position(b, PositionEncoding::Utf8)).to_vec();
    assert_eq!(utf8, vec![at(0, 0), at(0, 1), at(0, 3), at(0, 7), at(0, 8)]);
    assert_eq!(li.position(1000, ENC), at(2, 0));
    assert_eq!(range(0, 9, &li, ENC), Range { start: at(0, 0), end: at(1, 0) });
}

#[test]
fn offsets_lead_back_from_positions() {
    let text = "aé𝄞b\nc\n\nd";
    let li = LineIndex::new(text);
    for enc in [PositionEncoding::Utf8, PositionEncoding::Utf16] {
        let mut last = at(0, 0);
        for (b, _) in text.char_indices() {
            let p = li.position(b, enc);
            assert_eq!(li.offset(p, enc), b);
            assert!((last.line, last.character) <= (p.line, p.character));
            last = p;
        }
    }
    assert_eq!(li.offset(at(9, 0), ENC), text.len());
}

// ---------------------------------------------------------------------------
// Text
// ---------------------------------------------------------------------------

#[test]
fn numbers_are_written_out() {
    assert_eq!(decimal_text(0), "0");
    assert_eq!(decimal_text(18446744073709551615), "18446744073709551615");
    assert_eq!(signed_text(-42), "-42");
    assert_eq!(signed_text(i64::MIN), "-9223372036854775808");
    assert_eq!(hex_text(0), "0");
    assert_eq!(hex_text(0x1FA0), "1FA0");
    assert_eq!(compact_text("60.000000"), "60");
    assert_eq!(compact_text("0.010000"), "0.01");
    assert_eq!(compact_text("-51.200000"), "-51.2");
}

#[test]
fn texts_are_cut_at_separators() {
    assert_eq!(
        rsplit_once("Root.Engine.Speed", '.'),
        Some(("Root.Engine".to_string(), "Speed".to_string()))
    );
    assert_eq!(rsplit_once("Speed", '.'), None);
    assert_eq!(split_on("a..b", '.'), vec!["a".to_string(), String::new(), "b".to_string()]);
    assert_eq!(split_on("", '.'), vec![String::new()]);
    assert_eq!(string(&trim(&chars("\t a b \u{3000}\n"))), "a b");
    assert_eq!(string(&trim(&chars(" \n "))), "");
}

#[test]
fn attribute_values_stop_at_the_quote() {
    let s = chars("<C Name=\"é\" Filename=\"a.b\"/><C Name=\"\"/><C Name=\"open");
    assert_eq!(attribute_values(&s, "Name=\""), vec![(9, 10), (37, 37)]);
    assert_eq!(attribute_values(&s, "Filename=\""), vec![(22, 25)]);
    assert_eq!(attribute_values(&s, "Type=\""), Vec::new());
}

#[test]
fn texts_are_ordered_by_their_characters() {
    assert!(comes_before("", "a"));
    assert!(comes_before("Root", "Root.A"));
    assert!(comes_before("Z", "a"));
    assert!(comes_before("z", "é"));
    assert!(comes_before("\u{ffff}", "𝄞"));
    assert!(!comes_before("a", "a"));
    let mut set = Vec::new();
    for x in ["b", "a", "b", "c", "a"] {
        set_insert(&mut set, x);
    }
    assert_eq!(set, vec!["a".to_string(), "b".to_string(), "c".to_string()]);
    let mut map: Vec<(String, Vec<usize>)> = Vec::new();
    map_push(&mut map, "b", 1);
    map_push(&mut map, "a", 2);
    map_push(&mut map, "b", 3);
    assert_eq!(map, vec![("a".to_string(), vec![2]), ("b".to_string(), vec![1, 3])]);
}

// ---------------------------------------------------------------------------
// Paths and URIs
// ---------------------------------------------------------------------------

#[test]
fn paths_name_their_files() {
    assert_eq!(file_name("/proj/Scripts/A.m1scr").as_deref(), Some("A.m1scr"));
    assert_eq!(file_name("/proj/dir/").as_deref(), Some("dir"));
    assert_eq!(file_name("/proj/dir/.").as_deref(), Some("dir"));
    assert_eq!(file_name("/proj/.."), None);
    assert_eq!(file_name("/"), None);
    assert_eq!(with_file_name("/proj/A.m1scr", "B.m1scr"), "/proj/B.m1scr");
    assert_eq!(with_file_name("/A.m1scr", "B.m1scr"), "/B.m1scr");
    assert_eq!(with_file_name("A.m1scr", "B.m1scr"), "B.m1scr");
    assert_eq!(with_file_name("/proj/A.m1scr", "/B.m1scr"), "/B.m1scr");
    assert_eq!(with_file_name("/proj/..", "B.m1scr"), "/proj/../B.m1scr");
    assert!(same_path("/proj/./A", "/proj//A"));
    assert!(!same_path("/proj/A", "/proj/B"));
}

#[test]
fn contained_paths_stay_below_the_root() {
    assert_eq!(contained_join("/r", "a/../b").as_deref(), Some("/r/a/../b"));
    assert_eq!(contained_join("/r/", "a").as_deref(), Some("/r/a"));
    assert_eq!(contained_join("/r", "a/../.."), None);
    assert_eq!(contained_join("/r", ".."), None);
}

#[test]
fn drives_and_hosts_have_backslashes() {
    assert_eq!(file_name("C:\\p\\A.m1scr").as_deref(), Some("A.m1scr"));
    assert_eq!(file_name("C:/p\\A.m1scr\\.").as_deref(), Some("A.m1scr"));
    assert_eq!(file_name("\\\\host\\share\\A.m1scr").as_deref(), Some("A.m1scr"));
    for path in ["C:\\", "C:", "\\\\host\\share", "\\\\host\\share\\", "C:\\p\\.."] {
        assert_eq!(file_name(path), None, "{path}");
    }
    assert_eq!(with_file_name("C:\\p\\A.m1scr", "B.m1scr"), "C:\\p\\B.m1scr");
    assert_eq!(with_file_name("C:\\A.m1scr", "B.m1scr"), "C:\\B.m1scr");
    assert_eq!(with_file_name("C:\\p\\A.m1scr", "\\B.m1scr"), "C:\\B.m1scr");
    assert_eq!(
        with_file_name("\\\\host\\share\\A.m1scr", "B.m1scr"),
        "\\\\host\\share\\B.m1scr"
    );
    assert!(same_path("C:\\p\\.\\A", "c:/p//A"));
    assert!(!same_path("C:\\p\\A", "D:\\p\\A"));
    assert_eq!(contained_join("C:\\p", "dbc\\A.m1dbc").as_deref(), Some("C:\\p\\dbc\\A.m1dbc"));
    for rel in ["..\\A", "\\A", "D:\\A", "a\\..\\..\\A", "/A"] {
        assert_eq!(contained_join("C:\\p", rel), None, "{rel}");
    }
    // Elsewhere a backslash is a character like any other.
    assert_eq!(file_name("/p/a\\b").as_deref(), Some("a\\b"));
    assert_eq!(file_name("a\\b").as_deref(), Some("a\\b"));
    assert_eq!(contained_join("/p", "..\\A").as_deref(), Some("/p/..\\A"));
}

#[test]
fn files_are_told_apart_by_their_bytes() {
    let (raw, text) = ("file:///p/%FF.m1scr", "file:///p/%EF%BF%BD.m1scr");
    assert_eq!(path_of_uri(raw), path_of_uri(text));
    assert!(!is_same_file(raw, text));
    assert!(is_same_file(raw, "file:///p/./%ff.m1scr"));
    assert!(is_same_file("file:///p/A%20B", "file:///p//A%20B"));
    assert!(!is_same_file("file:///p/A", "untitled:A"));
    assert!(is_same_file("untitled:A", "untitled:B"));
}

#[test]
fn uris_name_their_files() {
    assert_eq!(file_name_of("file:///proj/Do%20Thing.m1scr").as_deref(), Some("Do Thing.m1scr"));
    assert_eq!(file_name_of("untitled:Untitled-1"), None);
    assert_eq!(file_name_of("not a uri"), None);
}

#[test]
fn links_filename_attribute_to_backing_script() {
    let text = "<Project>\n  <Component Filename=\"Scripts/Demo.Compute.m1scr\"/>\n</Project>\n";
    let links = document_links(text, &LineIndex::new(text), ENC, "/proj");
    assert_eq!(links.len(), 1, "one Filename link");
    let l = &links[0];
    assert!(
        l.target.ends_with("Scripts/Demo.Compute.m1scr"),
        "target: {:?}",
        l.target
    );
    assert_eq!(l.target, "file:///proj/Scripts/Demo.Compute.m1scr");
    assert_eq!(l.tooltip, "Open Scripts/Demo.Compute.m1scr");
    assert_eq!(l.range.start.line, 1);
    assert!(l.range.end.character > l.range.start.character);
    assert_eq!(l.range, Range { start: at(1, 23), end: at(1, 49) });
}

#[test]
fn skips_out_of_tree_filename() {
    let text = "<Component Filename=\"../../etc/passwd\"/>\n";
    assert!(document_links(text, &LineIndex::new(text), ENC, "/proj").is_empty());
}

#[test]
fn an_empty_filename_is_no_link() {
    let text = "<C Filename=\"\"/><C Filename=\"A B.m1scr\"/>";
    let links = document_links(text, &LineIndex::new(text), ENC, "/proj");
    assert_eq!(links.len(), 1);
    assert_eq!(links[0].target, "file:///proj/A%20B.m1scr");
    // Where the root is not absolute there is no URI.
    assert!(document_links(text, &LineIndex::new(text), ENC, "proj").is_empty());
}

// ---------------------------------------------------------------------------
// Scripts of a project
// ---------------------------------------------------------------------------

#[test]
fn scripts_come_once_each_with_the_cursor_first() {
    let pair = |a: &str, b: &str| (a.to_string(), b.to_string());
    let files: Vec<String> =
        ["/p/A.m1scr", "/p/B C.m1scr", "/p/D.m1scr", "/p/A.m1scr"].map(|s| s.to_string()).to_vec();
    let texts = Texts {
        open: vec![pair("file:///p/B%20C.m1scr", "open b")],
        disk: vec![pair("/p/A.m1scr", "disk a"), pair("/p/B C.m1scr", "disk b")],
    };
    assert_eq!(
        gather_project_scripts(&files, "file:///p/B%20C.m1scr", Some("typed b"), &texts),
        vec![pair("file:///p/B%20C.m1scr", "typed b"), pair("file:///p/A.m1scr", "disk a")]
    );
    assert_eq!(
        gather_project_scripts(&files, "file:///p/D.m1scr", None, &texts),
        vec![pair("file:///p/A.m1scr", "disk a"), pair("file:///p/B%20C.m1scr", "open b")]
    );
    assert_eq!(
        gather_project_scripts(&Vec::new(), "file:///p/A.m1scr", None, &texts),
        vec![pair("file:///p/A.m1scr", "disk a")]
    );
}

#[test]
fn scripts_are_found_by_their_files() {
    let mut f = symbol("Root.Do Thing", SymbolKind::Function);
    f.filename = Some("Do It.m1scr".to_string());
    let p = project(vec![f, symbol("Root.Engine.Update", SymbolKind::Method)], Vec::new());
    let found = |name: &str| script_symbol(&p, name).map(|s| s.path.clone());
    assert_eq!(found("Do It.m1scr").as_deref(), Some("Root.Do Thing"));
    assert_eq!(found("Engine.Update.m1scr").as_deref(), Some("Root.Engine.Update"));
    assert_eq!(found("Do Thing.m1scr"), None);
}

#[test]
fn symbols_are_declared_in_files() {
    let mut speed = symbol("Root.Speed", SymbolKind::Channel);
    speed.def_line = Some(7);
    let mut lost = symbol("Root.Lost", SymbolKind::Channel);
    lost.filename = Some("../Lost.m1dbc".to_string());
    let loaded = LoadedProject {
        project: project(vec![speed, lost], Vec::new()),
        root: "/p q".to_string(),
        m1prj_path: "/p q/Project.m1prj".to_string(),
        script_files: Vec::new(),
    };
    let loc = symbol_location(&loaded, &loaded.project.symbols[0]).unwrap();
    assert_eq!(loc.uri, "file:///p%20q/Project.m1prj");
    assert_eq!(loc.range, Range { start: at(7, 0), end: at(7, 0) });
    assert!(symbol_location(&loaded, &loaded.project.symbols[1]).is_none());
    let item = channel_item(&loaded, "Root.Speed").unwrap();
    assert_eq!(item.uri, "file:///p%20q/Project.m1prj");
    assert!(channel_item(&loaded, "Root.Missing").is_none());
}

// ---------------------------------------------------------------------------
// Names
// ---------------------------------------------------------------------------

#[test]
fn names_keep_to_their_characters() {
    for good in ["_", "a1", "A b_2"] {
        assert!(is_valid_identifier(good), "{good}");
        assert!(is_valid_symbol_name(good), "{good}");
    }
    for bad in ["", "1a", "a ", "é", "aé", "a-b", "a\tb"] {
        assert!(!is_valid_identifier(bad), "{bad}");
    }
    for good in ["9", "é", "a-b", "%"] {
        assert!(is_valid_symbol_name(good), "{good}");
    }
    for bad in ["", "a ", "\u{a0}a", "a\"b", "a<b", "a>b", "a&b", "a\tb", "a\nb", "a\rb", "a.b"] {
        assert!(!is_valid_symbol_name(bad), "{bad}");
    }
}

#[test]
fn renames_of_paths_and_files_can_be_undone() {
    assert_eq!(path_with_leaf("Root.Engine.Speed", "Rate"), "Root.Engine.Rate");
    assert_eq!(path_with_leaf("Speed", "Rate"), "Rate");
    let renamed = rename_group_segment("Root.Engine.Speed.Value", "Root.Engine", "Engine", "Motor");
    assert_eq!(renamed, "Root.Motor.Speed.Value");
    assert_eq!(
        rename_group_segment(&renamed, "Root.Motor", "Motor", "Engine"),
        "Root.Engine.Speed.Value"
    );
    assert_eq!(rename_group_segment("Engine", "Engine", "Engine", "Motor"), "Motor");
    let file = rewrite_trailing_leaf("Demo.Run.m1scr", "Run", "Go").unwrap();
    assert_eq!(rewrite_trailing_leaf(&file, "Go", "Run").as_deref(), Some("Demo.Run.m1scr"));
    let file = rewrite_filename_group_segment("Demo Run.m1scr", "Demo", "Big Demo").unwrap();
    assert_eq!(file, "Big Demo Run.m1scr");
    assert_eq!(
        rewrite_filename_group_segment(&file, "Big Demo", "Demo").as_deref(),
        Some("Demo Run.m1scr")
    );
}

#[test]
fn near_names_are_within_a_third() {
    let members: Vec<(String, i64)> =
        ["Accelerating", "Braking", "Idle"].iter().map(|n| (n.to_string(), 0)).collect();
    let near = |typo: &str| nearest_enum_member(typo, &members);
    // Twelve characters: four changes are allowed.
    assert_eq!(near("Acceling").as_deref(), Some("Accelerating"));
    assert_eq!(near("Acclng"), None);
    // Seven characters: two.
    assert_eq!(near("Brakes"), None);
    assert_eq!(near("Brakign").as_deref(), Some("Braking"));
    // Four characters: one.
    assert_eq!(near("Idol"), None);
    assert_eq!(near("IDL").as_deref(), Some("Idle"));
    assert_eq!(nearest_enum_member("Idle", &Vec::new()), None);
    // The first of two that are equally near.
    let twins = vec![("Ab".to_string(), 0), ("Ac".to_string(), 1)];
    assert_eq!(nearest_enum_member("A", &twins).as_deref(), Some("Ab"));
}

// ---------------------------------------------------------------------------
// Changes
// ---------------------------------------------------------------------------

fn edit(start: Position, end: Position, text: &str) -> TextEdit {
    TextEdit { range: Range { start, end }, new_text: text.to_string() }
}

fn changed(text: &str, edits: Vec<TextEdit>) -> Option<String> {
    let we = WorkspaceEdit {
        changes: Some(vec![("file:///a".to_string(), edits)]),
        document_changes: None,
        change_annotations: None,
    };
    apply_workspace_edit_to(&we, "file:///a", &LineIndex::new(text), ENC)
}

#[test]
fn edits_land_whatever_their_order() {
    let one = || edit(at(0, 0), at(0, 1), "xyz");
    let two = || edit(at(0, 3), at(1, 1), "");
    assert_eq!(changed("a𝄞b\ncd", vec![one()]).as_deref(), Some("xyz𝄞b\ncd"));
    assert_eq!(changed("a𝄞b\ncd", vec![one(), two()]).as_deref(), Some("xyz𝄞d"));
    assert_eq!(changed("a𝄞b\ncd", vec![two(), one()]).as_deref(), Some("xyz𝄞d"));
    assert_eq!(changed("abc", Vec::new()), None);
}

// ---------------------------------------------------------------------------
// Descriptions
// ---------------------------------------------------------------------------

#[test]
fn reserved_words_have_descriptions() {
    for name in ["Boolean", "Integer", "Unsigned Integer", "Floating Point", "String"] {
        assert!(primitive_type_doc(name).is_some(), "{name}");
    }
    assert!(primitive_type_doc("Speed").is_none());
    for name in ["Root", "Parent", "This", "In", "Out", "Library"] {
        assert!(reference_keyword_doc(name).is_some(), "{name}");
    }
    assert!(reference_keyword_doc("Speed").is_none());
}

#[test]
fn enumerations_list_their_members() {
    let p = project(
        Vec::new(),
        vec![EnumType {
            name: "Mode".to_string(),
            members: vec![("On".to_string(), 0), ("Off".to_string(), -1)],
            default: Some("On".to_string()),
        }],
    );
    let md = enum_type_markdown("mode", Some(&p)).unwrap();
    assert!(md.contains("`Off`, `On` (default)"), "got: {md}");
    let md = enum_member_markdown(Some("Mode"), "Off", Some(&p)).unwrap();
    assert!(md.contains("Mode.Off") && md.contains("= -1"), "got: {md}");
    assert!(enum_type_markdown("Mood", Some(&p)).is_none());
    assert!(enum_member_markdown(Some("Mode"), "Out", Some(&p)).is_none());
    assert!(enum_member_markdown(Some("Mode"), "On", None).is_none());
}

// ---------------------------------------------------------------------------
// Trees
// ---------------------------------------------------------------------------

fn node(kind: Kind, start: usize, end: usize, parent: Option<usize>) -> NodeData {
    NodeData { kind, start, end, parent, named: true, field: None }
}

#[test]
fn trees_nest() {
    let tree = SyntaxTree::new(
        "aé b",
        vec![
            node(Kind::Other, 0, 5, None),
            node(Kind::Identifier, 0, 3, Some(0)),
            node(Kind::Identifier, 4, 5, Some(0)),
        ],
    )
    .unwrap();
    assert_eq!(tree.len(), 3);
    assert_eq!(tree.children(0), &vec![1, 2]);
    assert_eq!(tree.text_of(1), "aé");
    assert_eq!(tree.parent(2), Some(0));
    // A node that ends within a character, one outside its parent, and none at all.
    assert!(SyntaxTree::new("é", vec![node(Kind::Other, 0, 1, None)]).is_none());
    assert!(SyntaxTree::new(
        "ab",
        vec![node(Kind::Other, 0, 1, None), node(Kind::Other, 1, 2, Some(0))]
    )
    .is_none());
    assert!(SyntaxTree::new("", Vec::new()).is_none());
}

// ---------------------------------------------------------------------------
// What holds of several calls
// ---------------------------------------------------------------------------

#[test]
fn distances_count_the_fewest_edits() {
    assert_eq!(edit_distance("kitten", "sitting"), 3);
    assert_eq!(edit_distance("", "abc"), 3);
    assert_eq!(edit_distance("abc", "abc"), 0);
    assert_eq!(edit_distance("ab", "ba"), 2);
    assert_eq!(edit_distance("sitting", "kitten"), 3);
    assert_eq!(edit_distance("aé𝄞", "a𝄞"), 1);
    let words = ["", "On", "Off", "Offline", "Online", "Idle"];
    for a in words {
        for b in words {
            for c in words {
                assert!(edit_distance(a, c) <= edit_distance(a, b) + edit_distance(b, c));
            }
        }
    }
}

#[test]
fn corrected_names_are_conventional() {
    assert_eq!(corrected_local_name("Torque Request").as_deref(), Some("torque_Request"));
    assert_eq!(corrected_local_name("torque_Request"), None);
    assert_eq!(corrected_local_name("Count").as_deref(), Some("count"));
    assert_eq!(corrected_local_name(""), None);
}

#[test]
fn every_cursor_in_a_run_sees_the_same_run() {
    let v = chars("x = Control.AV_2.é + 1");
    for i in 4..=18 {
        assert_eq!(chain_start(&v, false, i), 4);
        assert_eq!(chain_end(&v, i), 18);
    }
    assert_eq!((chain_start(&v, false, 3), chain_end(&v, 3)), (3, 3));
}

#[test]
fn edits_by_document_and_in_steps_leave_the_same_text() {
    let one = || edit(at(0, 0), at(0, 1), "xyz");
    let two = || edit(at(0, 3), at(1, 1), "");
    let text = "a𝄞b\ncd";
    let mixed = WorkspaceEdit {
        changes: Some(vec![("file:///a".to_string(), vec![two()])]),
        document_changes: Some(DocumentChanges::Edits(vec![TextDocumentEdit {
            uri: "file:///a".to_string(),
            version: None,
            edits: vec![AnyTextEdit::Plain(one())],
        }])),
        change_annotations: None,
    };
    let got = apply_workspace_edit_to(&mixed, "file:///a", &LineIndex::new(text), ENC);
    assert_eq!(got, changed(text, vec![one(), two()]));
    assert_eq!(got.as_deref(), Some("xyz𝄞d"));
}
