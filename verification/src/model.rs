//! The project model: its symbols and enumerations, the built-in library, and how a
//! script's names resolve against them.
use crate::list::{fresh, put};
use crate::search::{cut_last, rsplit_once};
use crate::text::{char_lower, chars, lower, lowered, same};
use vstd::prelude::*;

verus! {

/// The type of a value. An enumeration is named by its index in the project.
#[derive(Clone, Copy, Debug, PartialEq, Eq, Structural)]
pub enum ValueType {
    Boolean,
    Integer,
    Unsigned,
    Float,
    Enum(usize),
    String,
    Unknown,
}

impl DeepView for ValueType {
    type V = ValueType;

    open spec fn deep_view(&self) -> ValueType {
        *self
    }
}

#[derive(Clone, Copy, Debug, PartialEq, Eq, Structural)]
pub enum SymbolKind {
    Channel,
    Parameter,
    Constant,
    Function,
    Method,
    Table,
    Group,
    Reference,
    Object,
    Other,
}

/// A frequency in hertz, rendered.
#[derive(Debug)]
pub struct Rate {
    /// The shortest decimal form: `100`, `12.5`.
    pub plain: String,
    /// With six decimal places: `100.000000`.
    pub fixed: String,
}

/// What a [`Rate`] stands for.
pub struct RateView {
    pub plain: Seq<char>,
    pub fixed: Seq<char>,
}

impl DeepView for Rate {
    type V = RateView;

    open spec fn deep_view(&self) -> RateView {
        RateView {
            plain: self.plain.deep_view(),
            fixed: self.fixed.deep_view(),
        }
    }
}

/// One axis of a table.
#[derive(Debug)]
pub struct TableAxis {
    pub size: usize,
    pub unit: Option<String>,
}

/// What a [`TableAxis`] stands for.
pub struct TableAxisView {
    pub size: usize,
    pub unit: Option<Seq<char>>,
}

impl DeepView for TableAxis {
    type V = TableAxisView;

    open spec fn deep_view(&self) -> TableAxisView {
        TableAxisView {
            size: self.size,
            unit: self.unit.deep_view(),
        }
    }
}

/// The shape of a table.
#[derive(Debug)]
pub struct TableMeta {
    pub axes: Vec<TableAxis>,
    pub output_unit: Option<String>,
}

/// What a [`TableMeta`] stands for.
pub struct TableMetaView {
    pub axes: Seq<TableAxisView>,
    pub output_unit: Option<Seq<char>>,
}

impl DeepView for TableMeta {
    type V = TableMetaView;

    open spec fn deep_view(&self) -> TableMetaView {
        TableMetaView {
            axes: self.axes.deep_view(),
            output_unit: self.output_unit.deep_view(),
        }
    }
}

/// The place of a message or a signal on the CAN bus. Fractions have six decimal places.
#[derive(Debug)]
pub struct CanMeta {
    pub can_id: Option<u32>,
    pub dlc: Option<u32>,
    pub start_bit: Option<u32>,
    pub length: Option<u32>,
    pub multiplier: Option<String>,
    pub offset: Option<String>,
}

/// What a [`CanMeta`] stands for.
pub struct CanMetaView {
    pub can_id: Option<u32>,
    pub dlc: Option<u32>,
    pub start_bit: Option<u32>,
    pub length: Option<u32>,
    pub multiplier: Option<Seq<char>>,
    pub offset: Option<Seq<char>>,
}

impl DeepView for CanMeta {
    type V = CanMetaView;

    open spec fn deep_view(&self) -> CanMetaView {
        CanMetaView {
            can_id: self.can_id,
            dlc: self.dlc,
            start_bit: self.start_bit,
            length: self.length,
            multiplier: self.multiplier.deep_view(),
            offset: self.offset.deep_view(),
        }
    }
}

/// A component of the project.
#[derive(Debug)]
pub struct Symbol {
    /// The full dotted path.
    pub path: String,
    pub kind: SymbolKind,
    pub value_type: ValueType,
    /// The type as the project writes it.
    pub declared_type: Option<String>,
    pub unit: Option<String>,
    pub security: Option<String>,
    /// The file that backs it, relative to the project root.
    pub filename: Option<String>,
    /// The package class of an object.
    pub class: Option<String>,
    /// The class as the project writes it.
    pub classname: Option<String>,
    /// Its line in the project file.
    pub def_line: Option<u32>,
    /// The physical range of a signal, with six decimal places.
    pub dbc_range: Option<(String, String)>,
    pub can: Option<CanMeta>,
    pub call_rate: Option<Rate>,
    pub log_rate: Option<Rate>,
    pub tags: Vec<String>,
    pub table_meta: Option<TableMeta>,
}

/// What a [`Symbol`] stands for.
pub struct SymbolView {
    pub path: Seq<char>,
    pub kind: SymbolKind,
    pub value_type: ValueType,
    pub declared_type: Option<Seq<char>>,
    pub unit: Option<Seq<char>>,
    pub security: Option<Seq<char>>,
    pub filename: Option<Seq<char>>,
    pub class: Option<Seq<char>>,
    pub classname: Option<Seq<char>>,
    pub def_line: Option<u32>,
    pub dbc_range: Option<(Seq<char>, Seq<char>)>,
    pub can: Option<CanMetaView>,
    pub call_rate: Option<RateView>,
    pub log_rate: Option<RateView>,
    pub tags: Seq<Seq<char>>,
    pub table_meta: Option<TableMetaView>,
}

impl DeepView for Symbol {
    type V = SymbolView;

    open spec fn deep_view(&self) -> SymbolView {
        SymbolView {
            path: self.path.deep_view(),
            kind: self.kind,
            value_type: self.value_type,
            declared_type: self.declared_type.deep_view(),
            unit: self.unit.deep_view(),
            security: self.security.deep_view(),
            filename: self.filename.deep_view(),
            class: self.class.deep_view(),
            classname: self.classname.deep_view(),
            def_line: self.def_line,
            dbc_range: self.dbc_range.deep_view(),
            can: self.can.deep_view(),
            call_rate: self.call_rate.deep_view(),
            log_rate: self.log_rate.deep_view(),
            tags: self.tags.deep_view(),
            table_meta: self.table_meta.deep_view(),
        }
    }
}

/// An enumeration: its members with their values.
#[derive(Debug)]
pub struct EnumType {
    pub name: String,
    pub members: Vec<(String, i64)>,
    pub default: Option<String>,
}

/// What a [`EnumType`] stands for.
pub struct EnumTypeView {
    pub name: Seq<char>,
    pub members: Seq<(Seq<char>, i64)>,
    pub default: Option<Seq<char>>,
}

impl DeepView for EnumType {
    type V = EnumTypeView;

    open spec fn deep_view(&self) -> EnumTypeView {
        EnumTypeView {
            name: self.name.deep_view(),
            members: self.members.deep_view(),
            default: self.default.deep_view(),
        }
    }
}

/// A parameter of a built-in function.
#[derive(Debug)]
pub struct Param {
    pub name: String,
    pub ty: String,
}

/// What a [`Param`] stands for.
pub struct ParamView {
    pub name: Seq<char>,
    pub ty: Seq<char>,
}

impl DeepView for Param {
    type V = ParamView;

    open spec fn deep_view(&self) -> ParamView {
        ParamView {
            name: self.name.deep_view(),
            ty: self.ty.deep_view(),
        }
    }
}

/// One signature of a built-in function or method.
#[derive(Debug)]
pub struct Overload {
    pub name: String,
    pub params: Vec<Param>,
    pub returns: String,
    pub doc: String,
    pub stateful: bool,
    pub deprecated: bool,
    pub calibration_only: bool,
}

/// What a [`Overload`] stands for.
pub struct OverloadView {
    pub name: Seq<char>,
    pub params: Seq<ParamView>,
    pub returns: Seq<char>,
    pub doc: Seq<char>,
    pub stateful: bool,
    pub deprecated: bool,
    pub calibration_only: bool,
}

impl DeepView for Overload {
    type V = OverloadView;

    open spec fn deep_view(&self) -> OverloadView {
        OverloadView {
            name: self.name.deep_view(),
            params: self.params.deep_view(),
            returns: self.returns.deep_view(),
            doc: self.doc.deep_view(),
            stateful: self.stateful,
            deprecated: self.deprecated,
            calibration_only: self.calibration_only,
        }
    }
}

/// A library object and its functions.
#[derive(Debug)]
pub struct LibraryObject {
    pub name: String,
    pub doc: String,
    pub functions: Vec<Overload>,
}

/// What a [`LibraryObject`] stands for.
pub struct LibraryObjectView {
    pub name: Seq<char>,
    pub doc: Seq<char>,
    pub functions: Seq<OverloadView>,
}

impl DeepView for LibraryObject {
    type V = LibraryObjectView;

    open spec fn deep_view(&self) -> LibraryObjectView {
        LibraryObjectView {
            name: self.name.deep_view(),
            doc: self.doc.deep_view(),
            functions: self.functions.deep_view(),
        }
    }
}

/// The built-in library and language.
#[derive(Debug)]
pub struct Intrinsics {
    pub library: Vec<LibraryObject>,
    /// Methods that every object has.
    pub methods: Vec<Overload>,
    /// What each package class is for.
    pub class_docs: Vec<(String, String)>,
    /// The keywords, by group.
    pub keywords: Vec<Vec<String>>,
}

/// What a [`Intrinsics`] stands for.
pub struct IntrinsicsView {
    pub library: Seq<LibraryObjectView>,
    pub methods: Seq<OverloadView>,
    pub class_docs: Seq<(Seq<char>, Seq<char>)>,
    pub keywords: Seq<Seq<Seq<char>>>,
}

impl DeepView for Intrinsics {
    type V = IntrinsicsView;

    open spec fn deep_view(&self) -> IntrinsicsView {
        IntrinsicsView {
            library: self.library.deep_view(),
            methods: self.methods.deep_view(),
            class_docs: self.class_docs.deep_view(),
            keywords: self.keywords.deep_view(),
        }
    }
}

/// The symbols and the enumerations of a project.
#[derive(Debug)]
pub struct Project {
    pub symbols: Vec<Symbol>,
    pub enums: Vec<EnumType>,
}

/// What a [`Project`] stands for.
pub struct ProjectView {
    pub symbols: Seq<SymbolView>,
    pub enums: Seq<EnumTypeView>,
}

impl DeepView for Project {
    type V = ProjectView;

    open spec fn deep_view(&self) -> ProjectView {
        ProjectView {
            symbols: self.symbols.deep_view(),
            enums: self.enums.deep_view(),
        }
    }
}

/// A project and where it lies on disk.
#[derive(Debug)]
pub struct LoadedProject {
    pub project: Project,
    /// The project directory.
    pub root: String,
    /// The project file.
    pub m1prj_path: String,
    /// The scripts, by their paths.
    pub script_files: Vec<String>,
}

/// What a [`LoadedProject`] stands for.
pub struct LoadedProjectView {
    pub project: ProjectView,
    pub root: Seq<char>,
    pub m1prj_path: Seq<char>,
    pub script_files: Seq<Seq<char>>,
}

impl DeepView for LoadedProject {
    type V = LoadedProjectView;

    open spec fn deep_view(&self) -> LoadedProjectView {
        LoadedProjectView {
            project: self.project.deep_view(),
            root: self.root.deep_view(),
            m1prj_path: self.m1prj_path.deep_view(),
            script_files: self.script_files.deep_view(),
        }
    }
}

/// What a dotted path names in a script.
#[derive(Debug)]
pub enum Resolution {
    Local(ValueType),
    Symbol(Symbol),
    BuiltinObject(String),
    BuiltinFn(Vec<Overload>),
    Opaque,
    Unresolved,
}

/// What a [`Resolution`] stands for.
pub enum ResolutionView {
    Local(ValueType),
    Symbol(SymbolView),
    BuiltinObject(Seq<char>),
    BuiltinFn(Seq<OverloadView>),
    Opaque,
    Unresolved,
}

impl DeepView for Resolution {
    type V = ResolutionView;

    open spec fn deep_view(&self) -> ResolutionView {
        match self {
            Resolution::Local(x) => ResolutionView::Local(*x),
            Resolution::Symbol(x) => ResolutionView::Symbol(x.deep_view()),
            Resolution::BuiltinObject(x) => ResolutionView::BuiltinObject(x.deep_view()),
            Resolution::BuiltinFn(x) => ResolutionView::BuiltinFn(x.deep_view()),
            Resolution::Opaque => ResolutionView::Opaque,
            Resolution::Unresolved => ResolutionView::Unresolved,
        }
    }
}

/// What the names of one script stand for.
#[derive(Debug)]
pub struct Scope {
    /// The locals, each with its type.
    pub locals: Vec<(String, ValueType)>,
    /// The group that the script belongs to.
    pub group: Option<String>,
    /// What each dotted path of the script names; one not listed names nothing.
    pub resolutions: Vec<(String, Resolution)>,
    /// The types of the initialisers, by their nodes.
    pub types: Vec<(usize, ValueType)>,
}

/// What a [`Scope`] stands for.
pub struct ScopeView {
    pub locals: Seq<(Seq<char>, ValueType)>,
    pub group: Option<Seq<char>>,
    pub resolutions: Seq<(Seq<char>, ResolutionView)>,
    pub types: Seq<(usize, ValueType)>,
}

impl DeepView for Scope {
    type V = ScopeView;

    open spec fn deep_view(&self) -> ScopeView {
        ScopeView {
            locals: self.locals.deep_view(),
            group: self.group.deep_view(),
            resolutions: self.resolutions.deep_view(),
            types: self.types.deep_view(),
        }
    }
}


// ---------------------------------------------------------------------------
// Lookups
// ---------------------------------------------------------------------------

/// The index of the first pair from `i` on whose first half is `key`.
pub open spec fn key_index<T>(s: Seq<(Seq<char>, T)>, key: Seq<char>, i: int) -> Option<int>
    decreases s.len() - i,
{
    if i < 0 || i >= s.len() {
        None
    } else if s[i].0 == key {
        Some(i)
    } else {
        key_index(s, key, i + 1)
    }
}

/// The second half of the first pair whose first half is `key`.
pub open spec fn value_of<T>(s: Seq<(Seq<char>, T)>, key: Seq<char>) -> Option<T> {
    match key_index(s, key, 0) {
        Some(i) => Some(s[i].1),
        None => None,
    }
}

pub proof fn lemma_key_index<T>(s: Seq<(Seq<char>, T)>, key: Seq<char>, i: int)
    requires
        0 <= i,
    ensures
        match key_index(s, key, i) {
            Some(k) => i <= k < s.len() && s[k].0 == key && forall|j: int|
                i <= j < k ==> (#[trigger] s[j]).0 != key,
            None => forall|j: int| i <= j < s.len() ==> (#[trigger] s[j]).0 != key,
        },
    decreases s.len() - i,
{
    if i < s.len() && s[i].0 != key {
        lemma_key_index(s, key, i + 1);
    }
}

pub fn find_key<T: DeepView>(v: &Vec<(String, T)>, key: &str) -> (r: Option<usize>)
    ensures
        match r {
            Some(i) => i < v@.len() && key_index(v.deep_view(), key@, 0) == Some(i as int),
            None => key_index(v.deep_view(), key@, 0) is None,
        },
{
    let mut i: usize = 0;
    while i < v.len()
        invariant
            i <= v@.len(),
            key_index(v.deep_view(), key@, 0) == key_index(v.deep_view(), key@, i as int),
        decreases v@.len() - i,
    {
        assert(v.deep_view()[i as int].0 == v@[i as int].0@);
        if same(v[i].0.as_str(), key) {
            return Some(i);
        }
        i = i + 1;
    }
    None
}

/// The symbol with the given path, from index `i` on.
pub open spec fn symbol_at(s: Seq<SymbolView>, path: Seq<char>, i: int) -> Option<SymbolView>
    decreases s.len() - i,
{
    if i < 0 || i >= s.len() {
        None
    } else if s[i].path == path {
        Some(s[i])
    } else {
        symbol_at(s, path, i + 1)
    }
}

/// `path` has the prefix `parent`, a dot, and one more segment.
pub open spec fn is_child_path(path: Seq<char>, parent: Seq<char>) -> bool {
    match cut_last(path, '.') {
        Some((head, leaf)) => head == parent,
        None => false,
    }
}

/// The symbols, among the first `k`, that stand directly under `parent`.
pub open spec fn children_upto(s: Seq<SymbolView>, parent: Seq<char>, k: int) -> Seq<SymbolView>
    decreases k,
{
    if k <= 0 {
        Seq::empty()
    } else if is_child_path(s[k - 1].path, parent) {
        children_upto(s, parent, k - 1).push(s[k - 1])
    } else {
        children_upto(s, parent, k - 1)
    }
}

/// True when the two names differ at most in the case of their ASCII letters.
pub open spec fn same_fold(a: Seq<char>, b: Seq<char>) -> bool {
    lowered(a) == lowered(b)
}

/// The index of the first enumeration from `i` on with the given name, in any case.
pub open spec fn enum_index(s: Seq<EnumTypeView>, name: Seq<char>, i: int) -> Option<usize>
    decreases s.len() - i,
{
    if i < 0 || i >= s.len() {
        None
    } else if same_fold(s[i].name, name) {
        Some(i as usize)
    } else {
        enum_index(s, name, i + 1)
    }
}

/// True when `e` has a member of that name.
pub open spec fn is_member(e: EnumTypeView, member: Seq<char>) -> bool {
    key_index(e.members, member, 0) is Some
}

/// The indices, below `k`, of the enumerations that have such a member.
pub open spec fn owners_upto(s: Seq<EnumTypeView>, member: Seq<char>, k: int) -> Seq<usize>
    decreases k,
{
    if k <= 0 {
        Seq::empty()
    } else if is_member(s[k - 1], member) {
        owners_upto(s, member, k - 1).push((k - 1) as usize)
    } else {
        owners_upto(s, member, k - 1)
    }
}

impl ProjectView {
    /// The symbol with the given path.
    pub open spec fn get(self, path: Seq<char>) -> Option<SymbolView> {
        symbol_at(self.symbols, path, 0)
    }

    /// The symbols directly under `parent`, in the project's order.
    pub open spec fn immediate_children(self, parent: Seq<char>) -> Seq<SymbolView> {
        children_upto(self.symbols, parent, self.symbols.len() as int)
    }

    pub open spec fn enum_type(self, id: usize) -> Option<EnumTypeView> {
        if id < self.enums.len() {
            Some(self.enums[id as int])
        } else {
            None
        }
    }

    /// The enumeration with that name, in any case.
    pub open spec fn enum_by_name(self, name: Seq<char>) -> Option<usize> {
        enum_index(self.enums, name, 0)
    }

    pub open spec fn enum_has_member(self, id: usize, member: Seq<char>) -> bool {
        id < self.enums.len() && is_member(self.enums[id as int], member)
    }

    /// The enumerations that have such a member.
    pub open spec fn enums_with_member(self, member: Seq<char>) -> Seq<usize> {
        owners_upto(self.enums, member, self.enums.len() as int)
    }
}

pub fn same_fold_chars(a: &Vec<char>, b: &Vec<char>) -> (r: bool)
    ensures
        r == same_fold(a@, b@),
{
    if a.len() != b.len() {
        assert(lowered(a@).len() != lowered(b@).len());
        return false;
    }
    let mut i: usize = 0;
    while i < a.len()
        invariant
            i <= a@.len() == b@.len(),
            forall|j: int| 0 <= j < i ==> lower(a@[j]) == lower(b@[j]),
        decreases a@.len() - i,
    {
        if char_lower(a[i]) != char_lower(b[i]) {
            assert(lowered(a@)[i as int] != lowered(b@)[i as int]);
            return false;
        }
        i = i + 1;
    }
    assert(lowered(a@) =~= lowered(b@));
    true
}

impl EnumType {
    pub fn has_member(&self, member: &str) -> (r: bool)
        ensures
            r == is_member(self.deep_view(), member@),
    {
        find_key(&self.members, member).is_some()
    }
}

impl Project {
    pub fn get(&self, path: &str) -> (r: Option<&Symbol>)
        ensures
            r.deep_view() == self.deep_view().get(path@),
    {
        let ghost s = self.deep_view().symbols;
        let mut i: usize = 0;
        while i < self.symbols.len()
            invariant
                i <= self.symbols@.len(),
                s == self.deep_view().symbols,
                self.deep_view().get(path@) == symbol_at(s, path@, i as int),
            decreases self.symbols@.len() - i,
        {
            assert(s[i as int] == self.symbols@[i as int].deep_view());
            if same(self.symbols[i].path.as_str(), path) {
                return Some(&self.symbols[i]);
            }
            i = i + 1;
        }
        None
    }

    pub fn immediate_children(&self, parent: &str) -> (r: Vec<&Symbol>)
        ensures
            r.deep_view() == self.deep_view().immediate_children(parent@),
    {
        let ghost s = self.deep_view().symbols;
        let mut r: Vec<&Symbol> = fresh();
        let mut i: usize = 0;
        while i < self.symbols.len()
            invariant
                i <= self.symbols@.len(),
                s == self.deep_view().symbols,
                r.deep_view() == children_upto(s, parent@, i as int),
            decreases self.symbols@.len() - i,
        {
            assert(s[i as int] == self.symbols@[i as int].deep_view());
            match rsplit_once(self.symbols[i].path.as_str(), '.') {
                Some((head, leaf)) => {
                    if same(head.as_str(), parent) {
                        put(&mut r, &self.symbols[i]);
                    }
                },
                None => {},
            }
            i = i + 1;
        }
        r
    }

    pub fn enum_type(&self, id: usize) -> (r: Option<&EnumType>)
        ensures
            r.deep_view() == self.deep_view().enum_type(id),
    {
        if id < self.enums.len() {
            Some(&self.enums[id])
        } else {
            None
        }
    }

    pub fn enum_by_name(&self, name: &str) -> (r: Option<usize>)
        ensures
            r == self.deep_view().enum_by_name(name@),
            r matches Some(id) ==> id < self.enums@.len(),
    {
        let ghost s = self.deep_view().enums;
        let wanted = chars(name);
        let mut i: usize = 0;
        while i < self.enums.len()
            invariant
                i <= self.enums@.len(),
                s == self.deep_view().enums,
                wanted@ == name@,
                self.deep_view().enum_by_name(name@) == enum_index(s, name@, i as int),
            decreases self.enums@.len() - i,
        {
            assert(s[i as int] == self.enums@[i as int].deep_view());
            if same_fold_chars(&chars(self.enums[i].name.as_str()), &wanted) {
                return Some(i);
            }
            i = i + 1;
        }
        None
    }

    pub fn enum_has_member(&self, id: usize, member: &str) -> (r: bool)
        ensures
            r == self.deep_view().enum_has_member(id, member@),
    {
        if id < self.enums.len() {
            self.enums[id].has_member(member)
        } else {
            false
        }
    }

    pub fn enums_with_member(&self, member: &str) -> (r: Vec<usize>)
        ensures
            r@ == self.deep_view().enums_with_member(member@),
            forall|i: int| 0 <= i < r@.len() ==> #[trigger] r@[i] < self.enums@.len(),
    {
        let ghost s = self.deep_view().enums;
        let mut r: Vec<usize> = Vec::new();
        let mut i: usize = 0;
        while i < self.enums.len()
            invariant
                i <= self.enums@.len(),
                s == self.deep_view().enums,
                r@ == owners_upto(s, member@, i as int),
                forall|j: int| 0 <= j < r@.len() ==> #[trigger] r@[j] < self.enums@.len(),
            decreases self.enums@.len() - i,
        {
            assert(s[i as int] == self.enums@[i as int].deep_view());
            if self.enums[i].has_member(member) {
                r.push(i);
            }
            i = i + 1;
        }
        r
    }
}

/// The library object of that name, from index `i` on.
pub open spec fn object_at(s: Seq<LibraryObjectView>, name: Seq<char>, i: int) -> Option<
    LibraryObjectView,
>
    decreases s.len() - i,
{
    if i < 0 || i >= s.len() {
        None
    } else if s[i].name == name {
        Some(s[i])
    } else {
        object_at(s, name, i + 1)
    }
}

/// The signatures among the first `k` that have that name.
pub open spec fn named_overloads(s: Seq<OverloadView>, name: Seq<char>, k: int) -> Seq<OverloadView>
    decreases k,
{
    if k <= 0 {
        Seq::empty()
    } else if s[k - 1].name == name {
        named_overloads(s, name, k - 1).push(s[k - 1])
    } else {
        named_overloads(s, name, k - 1)
    }
}

pub fn overloads_named<'a>(v: &'a Vec<Overload>, name: &str) -> (r: Vec<&'a Overload>)
    ensures
        r.deep_view() == named_overloads(v.deep_view(), name@, v@.len() as int),
{
    let mut r: Vec<&Overload> = fresh();
    let mut i: usize = 0;
    while i < v.len()
        invariant
            i <= v@.len(),
            r.deep_view() == named_overloads(v.deep_view(), name@, i as int),
        decreases v@.len() - i,
    {
        assert(v.deep_view()[i as int] == v@[i as int].deep_view());
        if same(v[i].name.as_str(), name) {
            put(&mut r, &v[i]);
        }
        i = i + 1;
    }
    r
}

impl IntrinsicsView {
    pub open spec fn library_object(self, name: Seq<char>) -> Option<LibraryObjectView> {
        object_at(self.library, name, 0)
    }

    pub open spec fn object_method(self, name: Seq<char>) -> Seq<OverloadView> {
        named_overloads(self.methods, name, self.methods.len() as int)
    }

    pub open spec fn class_doc(self, class: Seq<char>) -> Option<Seq<char>> {
        value_of(self.class_docs, class)
    }
}

impl Intrinsics {
    pub fn library_object(&self, name: &str) -> (r: Option<&LibraryObject>)
        ensures
            r.deep_view() == self.deep_view().library_object(name@),
    {
        let ghost s = self.deep_view().library;
        let mut i: usize = 0;
        while i < self.library.len()
            invariant
                i <= self.library@.len(),
                s == self.deep_view().library,
                self.deep_view().library_object(name@) == object_at(s, name@, i as int),
            decreases self.library@.len() - i,
        {
            assert(s[i as int] == self.library@[i as int].deep_view());
            if same(self.library[i].name.as_str(), name) {
                return Some(&self.library[i]);
            }
            i = i + 1;
        }
        None
    }

    pub fn object_method(&self, name: &str) -> (r: Vec<&Overload>)
        ensures
            r.deep_view() == self.deep_view().object_method(name@),
    {
        overloads_named(&self.methods, name)
    }

    pub fn class_doc(&self, class: &str) -> (r: Option<&String>)
        ensures
            r.deep_view() == self.deep_view().class_doc(class@),
    {
        match find_key(&self.class_docs, class) {
            Some(i) => {
                assert(self.class_docs.deep_view()[i as int] == self.class_docs@[i as int].deep_view());
                Some(&self.class_docs[i].1)
            },
            None => None,
        }
    }
}

/// The type that the table gives for a node, from index `i` on.
pub open spec fn type_at(s: Seq<(usize, ValueType)>, n: usize, i: int) -> ValueType
    decreases s.len() - i,
{
    if i < 0 || i >= s.len() {
        ValueType::Unknown
    } else if s[i].0 == n {
        s[i].1
    } else {
        type_at(s, n, i + 1)
    }
}

/// The type that the table gives for node `n`; `Unknown` where it has none.
pub fn type_in(types: &Vec<(usize, ValueType)>, n: usize) -> (t: ValueType)
    ensures
        t == type_at(types@, n, 0),
{
    let mut i: usize = 0;
    while i < types.len()
        invariant
            i <= types@.len(),
            type_at(types@, n, 0) == type_at(types@, n, i as int),
        decreases types@.len() - i,
    {
        if types[i].0 == n {
            return types[i].1;
        }
        i = i + 1;
    }
    ValueType::Unknown
}

impl ScopeView {
    /// What `path` names.
    pub open spec fn resolve(self, path: Seq<char>) -> ResolutionView {
        match value_of(self.resolutions, path) {
            Some(r) => r,
            None => ResolutionView::Unresolved,
        }
    }

    /// The project symbol that `path` names.
    pub open spec fn symbol(self, path: Seq<char>) -> Option<SymbolView> {
        match self.resolve(path) {
            ResolutionView::Symbol(s) => Some(s),
            _ => None,
        }
    }
}

impl Scope {
    /// What `path` names; `None` stands for a path that names nothing.
    pub fn resolve(&self, path: &str) -> (r: Option<&Resolution>)
        ensures
            match r {
                Some(x) => x.deep_view() == self.deep_view().resolve(path@),
                None => self.deep_view().resolve(path@) == ResolutionView::Unresolved,
            },
    {
        match find_key(&self.resolutions, path) {
            Some(i) => {
                assert(self.resolutions.deep_view()[i as int] == self.resolutions@[i as int].deep_view());
                Some(&self.resolutions[i].1)
            },
            None => None,
        }
    }

    /// The project symbol that `path` names.
    pub fn symbol(&self, path: &str) -> (r: Option<&Symbol>)
        ensures
            r.deep_view() == self.deep_view().symbol(path@),
    {
        match self.resolve(path) {
            Some(Resolution::Symbol(s)) => Some(s),
            _ => None,
        }
    }
}

} // verus!
