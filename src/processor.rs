//! Preprocessor state: macro definitions, version, and the builder that sets them up.
use vstd::prelude::*;

use crate::token::Token;

verus! {

/// Identifier of a source unit; 0 denotes the primary string input.
#[derive(Debug, Clone, Copy, PartialEq, Eq, Structural)]
pub struct FileId {
    pub id: u32,
}

impl FileId {
    pub fn new(id: u32) -> (r: FileId)
        ensures
            r.id == id,
    {
        FileId { id }
    }
}

/// A token of a macro's replacement list, with its text.
#[derive(Debug, Clone, PartialEq, Eq)]
pub struct MacroToken {
    pub kind: Token,
    pub text: String,
}

/// Replacement list of an object-like macro.
#[derive(Debug, Clone, PartialEq, Eq)]
pub struct DefineObject {
    pub tokens: Vec<MacroToken>,
}

impl DefineObject {
    /// The replacement list `1`.
    pub fn one() -> (r: DefineObject)
        ensures
            r.tokens@.len() == 1,
            r.tokens@[0].kind == Token::DIGITS,
            r.tokens@[0].text@ == "1"@,
    {
        let t = MacroToken { kind: Token::DIGITS, text: String::from_str("1") };
        DefineObject { tokens: vec![t] }
    }
}

/// Parameters and replacement list of a function-like macro.
#[derive(Debug, Clone, PartialEq, Eq)]
pub struct DefineFunction {
    pub parameters: Vec<String>,
    pub tokens: Vec<MacroToken>,
    pub variadic: bool,
}

#[derive(Debug, Clone, PartialEq, Eq)]
pub enum DefineKind {
    Object(DefineObject),
    Function(DefineFunction),
}

/// A macro definition; a protected one cannot be redefined or undefined.
#[derive(Debug, Clone, PartialEq, Eq)]
pub struct Define {
    pub name: String,
    pub kind: DefineKind,
    pub protected: bool,
}

impl Define {
    /// An object-like macro.
    pub fn object(name: String, object: DefineObject, protected: bool) -> (r: Define)
        ensures
            r.name == name,
            r.kind == DefineKind::Object(object),
            r.protected == protected,
    {
        Define { name, kind: DefineKind::Object(object), protected }
    }

    /// A function-like macro.
    pub fn function(name: String, function: DefineFunction, protected: bool) -> (r: Define)
        ensures
            r.name == name,
            r.kind == DefineKind::Function(function),
            r.protected == protected,
    {
        Define { name, kind: DefineKind::Function(function), protected }
    }
}

/// An entry of the definition table: a macro, or one of the built-in pseudo-macros.
#[derive(Debug, Clone, PartialEq, Eq)]
pub enum Definition {
    Regular(Define, FileId),
    Line,
    File,
    Version,
}

/// The name under which a definition is looked up.
pub open spec fn def_name(d: Definition) -> Seq<char> {
    match d {
        Definition::Regular(def, _) => def.name@,
        Definition::Line => "__LINE__"@,
        Definition::File => "__FILE__"@,
        Definition::Version => "__VERSION__"@,
    }
}

/// Whether a definition refuses redefinition: the built-ins always do.
pub open spec fn def_protected(d: Definition) -> bool {
    match d {
        Definition::Regular(def, _) => def.protected,
        _ => true,
    }
}

/// The table that a list of definitions forms when each replaces any earlier one of the
/// same name.
pub open spec fn table_of(s: Seq<Definition>) -> Map<Seq<char>, Definition>
    decreases s.len(),
{
    if s.len() == 0 {
        Map::empty()
    } else {
        table_of(s.drop_last()).insert(def_name(s.last()), s.last())
    }
}

pub open spec fn names_unique(s: Seq<Definition>) -> bool {
    forall|i: int, j: int| 0 <= i < j < s.len() ==> def_name(s[i]) != def_name(s[j])
}

proof fn lemma_table_index(s: Seq<Definition>)
    requires
        names_unique(s),
    ensures
        forall|i: int|
            0 <= i < s.len() ==> #[trigger] table_of(s).contains_key(def_name(s[i]))
                && table_of(s)[def_name(s[i])] == s[i],
        forall|n: Seq<char>|
            table_of(s).contains_key(n) ==> exists|i: int| 0 <= i < s.len() && def_name(s[i]) == n,
    decreases s.len(),
{
    if s.len() > 0 {
        let p = s.drop_last();
        assert(names_unique(p)) by {
            assert forall|i: int, j: int| 0 <= i < j < p.len() implies def_name(p[i]) != def_name(
                p[j],
            ) by {
                assert(p[i] == s[i] && p[j] == s[j]);
            }
        }
        lemma_table_index(p);
        assert(table_of(s) == table_of(p).insert(def_name(s.last()), s.last()));
        assert forall|i: int| 0 <= i < s.len() implies #[trigger] table_of(s).contains_key(
            def_name(s[i]),
        ) && table_of(s)[def_name(s[i])] == s[i] by {
            if i < s.len() - 1 {
                assert(p[i] == s[i]);
                assert(table_of(p).contains_key(def_name(p[i])));
                assert(def_name(s[i]) != def_name(s[s.len() - 1]));
            }
        }
        assert forall|n: Seq<char>| table_of(s).contains_key(n) implies exists|i: int|
            0 <= i < s.len() && def_name(s[i]) == n by {
            if n != def_name(s.last()) {
                assert(table_of(p).contains_key(n));
                let i = choose|i: int| 0 <= i < p.len() && def_name(p[i]) == n;
                assert(s[i] == p[i]);
            }
        }
    }
}

proof fn lemma_table_update(s: Seq<Definition>, i: int, d: Definition)
    requires
        names_unique(s),
        0 <= i < s.len(),
        def_name(d) == def_name(s[i]),
    ensures
        table_of(s.update(i, d)) == table_of(s).insert(def_name(d), d),
        names_unique(s.update(i, d)),
    decreases s.len(),
{
    let u = s.update(i, d);
    let p = s.drop_last();
    assert(names_unique(p)) by {
        assert forall|a: int, b: int| 0 <= a < b < p.len() implies def_name(p[a]) != def_name(
            p[b],
        ) by {
            assert(p[a] == s[a] && p[b] == s[b]);
        }
    }
    assert(names_unique(u)) by {
        assert forall|a: int, b: int| 0 <= a < b < u.len() implies def_name(u[a]) != def_name(
            u[b],
        ) by {}
    }
    if i == s.len() - 1 {
        assert(u.drop_last() =~= p);
        assert(table_of(u) =~= table_of(s).insert(def_name(d), d));
    } else {
        assert(u.drop_last() =~= p.update(i, d));
        lemma_table_update(p, i, d);
        assert(def_name(s.last()) != def_name(d));
        assert(table_of(u) =~= table_of(s).insert(def_name(d), d));
    }
}

/// The GLSL version and profile in effect.
#[derive(Debug, Clone, Copy, PartialEq, Eq, Structural)]
pub enum VersionProfile {
    Unspecified,
    Core,
    Compatibility,
    Es,
}

#[derive(Debug, Clone, Copy, PartialEq, Eq, Structural)]
pub struct Version {
    pub number: u16,
    pub profile: VersionProfile,
}

impl Version {
    /// The version in effect before any `#version` directive: 110, without a profile.
    pub fn initial() -> (r: Version)
        ensures
            r.number == 110,
            r.profile == VersionProfile::Unspecified,
    {
        Version { number: 110, profile: VersionProfile::Unspecified }
    }
}

/// Current state of the preprocessor.
#[derive(Debug, Clone)]
pub struct ProcessorState {
    definitions: Vec<Definition>,
    version: Version,
    cpp_style_line: bool,
    extension_stack: Vec<(ExtensionName, ExtensionBehavior)>,
}

impl ProcessorState {
    /// The definition table, by name.
    pub closed spec fn table(&self) -> Map<Seq<char>, Definition> {
        table_of(self.definitions@)
    }

    pub closed spec fn version_spec(&self) -> Version {
        self.version
    }

    pub closed spec fn cpp_style_line_spec(&self) -> bool {
        self.cpp_style_line
    }

    /// The extension directives in force, oldest first.
    pub closed spec fn extensions_spec(&self) -> Seq<(ExtensionName, ExtensionBehavior)> {
        self.extension_stack@
    }

    pub closed spec fn wf(&self) -> bool {
        names_unique(self.definitions@)
    }

    /// A state with no definition.
    fn empty() -> (r: ProcessorState)
        ensures
            r.wf(),
            r.table() == Map::<Seq<char>, Definition>::empty(),
            r.version_spec() == (Version { number: 110, profile: VersionProfile::Unspecified }),
            !r.cpp_style_line_spec(),
            r.extensions_spec().len() == 0,
    {
        let r = ProcessorState {
            definitions: Vec::new(),
            version: Version::initial(),
            cpp_style_line: false,
            extension_stack: Vec::new(),
        };
        proof {
            assert(r.definitions@.len() == 0);
        }
        r
    }

    /// Index of the definition named `name`.
    fn position(&self, name: &String) -> (r: Option<usize>)
        requires
            self.wf(),
        ensures
            r is Some ==> r->0 < self.definitions@.len() && def_name(self.definitions@[r->0 as int])
                == name@,
            r is None ==> forall|i: int|
                0 <= i < self.definitions@.len() ==> def_name(self.definitions@[i]) != name@,
    {
        let mut i: usize = 0;
        while i < self.definitions.len()
            invariant
                i <= self.definitions@.len(),
                forall|k: int| 0 <= k < i ==> def_name(self.definitions@[k]) != name@,
            decreases self.definitions@.len() - i,
        {
            let n = self.definitions[i].name();
            if n == *name {
                return Some(i);
            }
            i = i + 1;
        }
        None
    }

    /// Enters `d` in the table, replacing any definition of the same name.
    fn upsert(&mut self, d: Definition)
        requires
            old(self).wf(),
        ensures
            final(self).wf(),
            final(self).table() == old(self).table().insert(def_name(d), d),
            final(self).version_spec() == old(self).version_spec(),
            final(self).cpp_style_line_spec() == old(self).cpp_style_line_spec(),
            final(self).extensions_spec() == old(self).extensions_spec(),
    {
        let name = d.name();
        match self.position(&name) {
            Some(i) => {
                proof {
                    lemma_table_update(self.definitions@, i as int, d);
                }
                self.definitions.set(i, d);
            },
            None => {
                proof {
                    let s = self.definitions@.push(d);
                    assert(s.drop_last() =~= self.definitions@);
                    assert forall|a: int, b: int| 0 <= a < b < s.len() implies def_name(s[a])
                        != def_name(s[b]) by {
                        if b == s.len() - 1 {
                            assert(s[a] == self.definitions@[a]);
                        } else {
                            assert(s[a] == self.definitions@[a] && s[b] == self.definitions@[b]);
                        }
                    }
                }
                self.definitions.push(d);
            },
        }
    }

    /// The definition named `name`, if any.
    pub fn get_definition(&self, name: &String) -> (r: Option<&Definition>)
        requires
            self.wf(),
        ensures
            r is Some <==> self.table().contains_key(name@),
            r is Some ==> *r->0 == self.table()[name@],
    {
        proof {
            lemma_table_index(self.definitions@);
        }
        match self.position(name) {
            Some(i) => {
                proof {
                    assert(table_of(self.definitions@).contains_key(
                        def_name(self.definitions@[i as int]),
                    ));
                }
                Some(&self.definitions[i])
            },
            None => None,
        }
    }

    /// Defines a macro, unless a protected definition of that name exists. Returns whether
    /// the definition was entered.
    pub fn definition(&mut self, definition: Define, file_id: FileId) -> (r: bool)
        requires
            old(self).wf(),
        ensures
            final(self).wf(),
            r == !(old(self).table().contains_key(definition.name@) && def_protected(
                old(self).table()[definition.name@],
            )),
            !r ==> *final(self) == *old(self),
            r ==> final(self).table() == old(self).table().insert(
                definition.name@,
                Definition::Regular(definition, file_id),
            ),
            final(self).version_spec() == old(self).version_spec(),
            final(self).cpp_style_line_spec() == old(self).cpp_style_line_spec(),
            final(self).extensions_spec() == old(self).extensions_spec(),
    {
        proof {
            lemma_table_index(self.definitions@);
        }
        match self.position(&definition.name) {
            Some(i) => {
                proof {
                    assert(table_of(self.definitions@).contains_key(
                        def_name(self.definitions@[i as int]),
                    ));
                }
                if self.definitions[i].protected() {
                    return false;
                }
            },
            None => {},
        }
        self.upsert(Definition::Regular(definition, file_id));
        true
    }

    /// Whether `__FILE__` and `#line` use the path form of the cpp-style line directive.
    pub fn cpp_style_line(&self) -> (r: bool)
        ensures
            r == self.cpp_style_line_spec(),
    {
        self.cpp_style_line
    }

    /// The version in effect.
    pub fn version(&self) -> (r: Version)
        ensures
            r == self.version_spec(),
    {
        self.version
    }
}

impl Definition {
    /// The name under which the definition is looked up.
    pub fn name(&self) -> (r: String)
        ensures
            r@ == def_name(*self),
    {
        match self {
            Definition::Regular(d, _) => d.name.clone(),
            Definition::Line => String::from_str("__LINE__"),
            Definition::File => String::from_str("__FILE__"),
            Definition::Version => String::from_str("__VERSION__"),
        }
    }

    /// Whether the definition refuses redefinition.
    pub fn protected(&self) -> (r: bool)
        ensures
            r == def_protected(*self),
    {
        match self {
            Definition::Regular(d, _) => d.protected,
            _ => true,
        }
    }
}

/// A known extension.
#[derive(Debug, Clone, PartialEq, Eq)]
pub struct ExtensionSpec {
    pub name: String,
}

/// The set of extensions known to the preprocessor.
#[derive(Debug, Clone)]
pub struct Registry {
    extensions: Vec<ExtensionSpec>,
}

impl Registry {
    /// The names of the known extensions, in order.
    pub closed spec fn names(&self) -> Seq<Seq<char>> {
        Seq::new(self.extensions@.len(), |i: int| self.extensions@[i].name@)
    }

    /// A registry that knows no extension.
    pub fn new() -> (r: Registry)
        ensures
            r.names() == Seq::<Seq<char>>::empty(),
    {
        let r = Registry { extensions: Vec::new() };
        proof {
            assert(r.names() =~= Seq::<Seq<char>>::empty());
        }
        r
    }

    /// Adds an extension.
    pub fn add(&mut self, name: String)
        ensures
            final(self).names() == old(self).names().push(name@),
    {
        self.extensions.push(ExtensionSpec { name });
        proof {
            assert(self.names() =~= old(self).names().push(name@));
        }
    }

    /// The extensions that the preprocessor itself acts upon.
    pub fn default_registry() -> (r: Registry)
        ensures
            r.names() == seq![
                "GL_ARB_shading_language_include"@,
                "GL_GOOGLE_include_directive"@,
                "GL_GOOGLE_cpp_style_line_directive"@,
            ],
    {
        let mut r = Registry::new();
        r.add(String::from_str("GL_ARB_shading_language_include"));
        r.add(String::from_str("GL_GOOGLE_include_directive"));
        r.add(String::from_str("GL_GOOGLE_cpp_style_line_directive"));
        proof {
            assert(r.names() =~= seq![
                "GL_ARB_shading_language_include"@,
                "GL_GOOGLE_include_directive"@,
                "GL_GOOGLE_cpp_style_line_directive"@,
            ]);
        }
        r
    }

    /// All known extensions.
    pub fn all(&self) -> (r: &Vec<ExtensionSpec>)
        ensures
            r@.len() == self.names().len(),
            forall|i: int| 0 <= i < r@.len() ==> (#[trigger] r@[i]).name@ == self.names()[i],
    {
        &self.extensions
    }
}

/// Name of an extension in an `#extension` directive.
#[derive(Debug, Clone, PartialEq, Eq)]
pub enum ExtensionName {
    All,
    Specific(String),
}

/// Behavior requested for an extension.
#[derive(Debug, Clone, Copy, PartialEq, Eq, Structural)]
pub enum ExtensionBehavior {
    Require,
    Enable,
    Warn,
    Disable,
}

impl<'r> Default for ProcessorStateBuilder<'r> {
    /// The default builder: core profile, no extension, no definition, default registry.
    fn default() -> (r: ProcessorStateBuilder<'r>)
        ensures
            r.core_spec(),
            !r.compatibility_spec(),
            !r.es_spec(),
            r.extensions_spec().len() == 0,
            r.definitions_spec().len() == 0,
            r.registry_names() == Registry::default_registry_names(),
    {
        ProcessorStateBuilder {
            core_profile: true,
            compatibility_profile: false,
            es_profile: false,
            extensions: Vec::new(),
            definitions: Vec::new(),
            registry: None,
        }
    }
}

/// Whether `d` is the protected object-like macro `name` defined as `1` in the primary input.
pub open spec fn is_sentinel(d: Definition, name: Seq<char>) -> bool {
    match d {
        Definition::Regular(def, fid) => {
            &&& def.name@ == name
            &&& def.protected
            &&& fid.id == 0
            &&& match def.kind {
                DefineKind::Object(o) => o.tokens@.len() == 1 && o.tokens@[0].kind == Token::DIGITS
                    && o.tokens@[0].text@ == "1"@,
                _ => false,
            }
        },
        _ => false,
    }
}

/// What an entry of the initial definition list is: a given definition, or the sentinel
/// macro of a name.
pub enum Entry {
    Exact(Definition),
    Sentinel(Seq<char>),
}

pub open spec fn entry_name(e: Entry) -> Seq<char> {
    match e {
        Entry::Exact(d) => def_name(d),
        Entry::Sentinel(n) => n,
    }
}

pub open spec fn entry_holds(d: Definition, e: Entry) -> bool {
    match e {
        Entry::Exact(x) => d == x,
        Entry::Sentinel(n) => is_sentinel(d, n),
    }
}

/// The last entry named `n`.
pub open spec fn last_named(es: Seq<Entry>, n: Seq<char>) -> Option<Entry>
    decreases es.len(),
{
    if es.len() == 0 {
        None
    } else if entry_name(es.last()) == n {
        Some(es.last())
    } else {
        last_named(es.drop_last(), n)
    }
}

/// A table holds exactly the names of the entries, each with the last entry of its name.
pub open spec fn table_from(t: Map<Seq<char>, Definition>, es: Seq<Entry>) -> bool {
    forall|n: Seq<char>|
        #![trigger t.contains_key(n)]
        #![trigger last_named(es, n)]
        (t.contains_key(n) <==> last_named(es, n) is Some) && (t.contains_key(n) ==> entry_holds(
            t[n],
            last_named(es, n)->0,
        ))
}

pub open spec fn opt_sentinel(on: bool, name: Seq<char>) -> Seq<Entry> {
    if on {
        seq![Entry::Sentinel(name)]
    } else {
        Seq::empty()
    }
}

/// Builder of the initial preprocessor state.
#[derive(Debug, Clone)]
pub struct ProcessorStateBuilder<'r> {
    core_profile: bool,
    compatibility_profile: bool,
    es_profile: bool,
    extensions: Vec<(ExtensionName, ExtensionBehavior)>,
    definitions: Vec<Define>,
    registry: Option<&'r Registry>,
}

impl<'r> ProcessorStateBuilder<'r> {
    pub closed spec fn core_spec(&self) -> bool {
        self.core_profile
    }

    pub closed spec fn compatibility_spec(&self) -> bool {
        self.compatibility_profile
    }

    pub closed spec fn es_spec(&self) -> bool {
        self.es_profile
    }

    pub closed spec fn extensions_spec(&self) -> Seq<(ExtensionName, ExtensionBehavior)> {
        self.extensions@
    }

    pub closed spec fn definitions_spec(&self) -> Seq<Define> {
        self.definitions@
    }

    /// The names of the registry's extensions; without a registry, the default one's.
    pub closed spec fn registry_names(&self) -> Seq<Seq<char>> {
        match self.registry {
            Some(r) => r.names(),
            None => seq![
                "GL_ARB_shading_language_include"@,
                "GL_GOOGLE_include_directive"@,
                "GL_GOOGLE_cpp_style_line_directive"@,
            ],
        }
    }

    /// The definitions of the state that `finish` makes, in order; a later one replaces an
    /// earlier one of the same name.
    pub open spec fn entries(&self) -> Seq<Entry> {
        opt_sentinel(self.core_spec(), "GL_core_profile"@) + opt_sentinel(
            self.compatibility_spec(),
            "GL_compatibility_profile"@,
        ) + opt_sentinel(self.es_spec(), "GL_es_profile"@) + Seq::new(
            self.definitions_spec().len(),
            |i: int| Entry::Exact(Definition::Regular(self.definitions_spec()[i], FileId { id: 0 })),
        ) + seq![
            Entry::Exact(Definition::Line),
            Entry::Exact(Definition::File),
            Entry::Exact(Definition::Version),
        ] + Seq::new(self.registry_names().len(), |i: int| Entry::Sentinel(self.registry_names()[i]))
    }

    /// The default builder with the given registry.
    pub fn new(registry: &'r Registry) -> (r: ProcessorStateBuilder<'r>)
        ensures
            r.core_spec(),
            !r.compatibility_spec(),
            !r.es_spec(),
            r.extensions_spec().len() == 0,
            r.definitions_spec().len() == 0,
            r.registry_names() == registry.names(),
    {
        let default = ProcessorStateBuilder::default();
        ProcessorStateBuilder { registry: Some(registry), ..default }
    }

    /// This builder with another registry.
    pub fn registry<'s>(self, registry: &'s Registry) -> (r: ProcessorStateBuilder<'s>)
        ensures
            r.core_spec() == self.core_spec(),
            r.compatibility_spec() == self.compatibility_spec(),
            r.es_spec() == self.es_spec(),
            r.extensions_spec() == self.extensions_spec(),
            r.definitions_spec() == self.definitions_spec(),
            r.registry_names() == registry.names(),
    {
        ProcessorStateBuilder::<'s> {
            registry: Some(registry),
            core_profile: self.core_profile,
            compatibility_profile: self.compatibility_profile,
            es_profile: self.es_profile,
            extensions: self.extensions,
            definitions: self.definitions,
        }
    }

    pub fn core_profile(self, core_profile: bool) -> (r: Self)
        ensures
            r.core_spec() == core_profile,
            r.compatibility_spec() == self.compatibility_spec(),
            r.es_spec() == self.es_spec(),
            r.extensions_spec() == self.extensions_spec(),
            r.definitions_spec() == self.definitions_spec(),
            r.registry_names() == self.registry_names(),
    {
        Self { core_profile, ..self }
    }

    pub fn compatibility_profile(self, compatibility_profile: bool) -> (r: Self)
        ensures
            r.core_spec() == self.core_spec(),
            r.compatibility_spec() == compatibility_profile,
            r.es_spec() == self.es_spec(),
            r.extensions_spec() == self.extensions_spec(),
            r.definitions_spec() == self.definitions_spec(),
            r.registry_names() == self.registry_names(),
    {
        Self { compatibility_profile, ..self }
    }

    pub fn es_profile(self, es_profile: bool) -> (r: Self)
        ensures
            r.core_spec() == self.core_spec(),
            r.compatibility_spec() == self.compatibility_spec(),
            r.es_spec() == es_profile,
            r.extensions_spec() == self.extensions_spec(),
            r.definitions_spec() == self.definitions_spec(),
            r.registry_names() == self.registry_names(),
    {
        Self { es_profile, ..self }
    }

    /// Requests a behavior for an extension.
    pub fn extension(self, name: ExtensionName, behavior: ExtensionBehavior) -> (r: Self)
        ensures
            r.core_spec() == self.core_spec(),
            r.compatibility_spec() == self.compatibility_spec(),
            r.es_spec() == self.es_spec(),
            r.extensions_spec() == self.extensions_spec().push((name, behavior)),
            r.definitions_spec() == self.definitions_spec(),
            r.registry_names() == self.registry_names(),
    {
        let mut r = self;
        r.extensions.push((name, behavior));
        r
    }

    /// Adds a definition.
    pub fn definition(self, definition: Define) -> (r: Self)
        ensures
            r.core_spec() == self.core_spec(),
            r.compatibility_spec() == self.compatibility_spec(),
            r.es_spec() == self.es_spec(),
            r.extensions_spec() == self.extensions_spec(),
            r.definitions_spec() == self.definitions_spec().push(definition),
            r.registry_names() == self.registry_names(),
    {
        let mut r = self;
        r.definitions.push(definition);
        r
    }
}

impl Registry {
    /// The names that [`Registry::default_registry`] knows.
    pub open spec fn default_registry_names() -> Seq<Seq<char>> {
        seq![
            "GL_ARB_shading_language_include"@,
            "GL_GOOGLE_include_directive"@,
            "GL_GOOGLE_cpp_style_line_directive"@,
        ]
    }
}

proof fn lemma_table_from_push(t: Map<Seq<char>, Definition>, es: Seq<Entry>, d: Definition, e: Entry)
    requires
        table_from(t, es),
        entry_holds(d, e),
        def_name(d) == entry_name(e),
    ensures
        table_from(t.insert(def_name(d), d), es.push(e)),
{
    let es2 = es.push(e);
    assert(es2.drop_last() =~= es);
    assert forall|n: Seq<char>| #![trigger last_named(es2, n)]
        last_named(es2, n) == (if entry_name(e) == n {
            Some(e)
        } else {
            last_named(es, n)
        }) by {}
    let t2 = t.insert(def_name(d), d);
    assert forall|n: Seq<char>|
        #![trigger t2.contains_key(n)]
        #![trigger last_named(es2, n)]
        (t2.contains_key(n) <==> last_named(es2, n) is Some) && (t2.contains_key(n)
            ==> entry_holds(t2[n], last_named(es2, n)->0)) by {
        assert(last_named(es2, n) == (if entry_name(e) == n {
            Some(e)
        } else {
            last_named(es, n)
        }));
        if n != def_name(d) {
            assert(t.contains_key(n) <==> last_named(es, n) is Some);
        }
    }
}

/// The protected object-like macro `name`, defined as `1`.
fn sentinel(name: String) -> (r: Definition)
    ensures
        is_sentinel(r, name@),
        def_name(r) == name@,
{
    Definition::Regular(Define::object(name, DefineObject::one(), true), FileId::new(0))
}

impl ProcessorState {
    /// Enters `d`, which `e` describes, in a table built from `es`.
    fn enter(&mut self, d: Definition, Ghost(es): Ghost<Seq<Entry>>, Ghost(e): Ghost<Entry>)
        requires
            old(self).wf(),
            table_from(old(self).table(), es),
            entry_holds(d, e),
            def_name(d) == entry_name(e),
        ensures
            final(self).wf(),
            table_from(final(self).table(), es.push(e)),
            final(self).version_spec() == old(self).version_spec(),
            final(self).cpp_style_line_spec() == old(self).cpp_style_line_spec(),
            final(self).extensions_spec() == old(self).extensions_spec(),
    {
        let ghost t = self.table();
        proof {
            lemma_table_from_push(t, es, d, e);
        }
        self.upsert(d);
    }

    /// Enters the sentinel macro of each extension of `registry`.
    fn enter_sentinels(&mut self, registry: &Registry, Ghost(es): Ghost<Seq<Entry>>)
        requires
            old(self).wf(),
            table_from(old(self).table(), es),
        ensures
            final(self).wf(),
            table_from(
                final(self).table(),
                es + Seq::new(registry.names().len(), |i: int| Entry::Sentinel(registry.names()[i])),
            ),
            final(self).version_spec() == old(self).version_spec(),
            final(self).cpp_style_line_spec() == old(self).cpp_style_line_spec(),
            final(self).extensions_spec() == old(self).extensions_spec(),
    {
        let all = registry.all();
        let ghost names = registry.names();
        let mut i: usize = 0;
        while i < all.len()
            invariant
                self.wf(),
                i <= all@.len() == names.len(),
                forall|k: int| 0 <= k < all@.len() ==> (#[trigger] all@[k]).name@ == names[k],
                table_from(
                    self.table(),
                    es + Seq::new(i as nat, |k: int| Entry::Sentinel(names[k])),
                ),
                self.version_spec() == old(self).version_spec(),
                self.cpp_style_line_spec() == old(self).cpp_style_line_spec(),
                self.extensions_spec() == old(self).extensions_spec(),
            decreases all@.len() - i,
        {
            let name = all[i].name.clone();
            let ghost e = Entry::Sentinel(names[i as int]);
            let ghost before = es + Seq::new(i as nat, |k: int| Entry::Sentinel(names[k]));
            self.enter(sentinel(name), Ghost(before), Ghost(e));
            proof {
                assert(before.push(e) =~= es + Seq::new((i + 1) as nat, |k: int| Entry::Sentinel(names[k])));
            }
            i = i + 1;
        }
        proof {
            assert(Seq::new(i as nat, |k: int| Entry::Sentinel(names[k])) =~= Seq::new(
                registry.names().len(),
                |k: int| Entry::Sentinel(registry.names()[k]),
            ));
        }
    }
}

impl<'r> ProcessorStateBuilder<'r> {
    /// The initial preprocessor state: the profile sentinels, the definitions, the built-in
    /// pseudo-macros and one sentinel per registered extension, each replacing an earlier
    /// one of the same name.
    #[verifier::rlimit(100)]
    pub fn finish(self) -> (r: ProcessorState)
        ensures
            r.wf(),
            table_from(r.table(), self.entries()),
            r.version_spec() == (Version { number: 110, profile: VersionProfile::Unspecified }),
            !r.cpp_style_line_spec(),
            r.extensions_spec() == self.extensions_spec(),
    {
        let ghost orig = self;
        let extensions = self.extensions;
        let mut st = ProcessorState::empty();
        let ghost mut es: Seq<Entry> = Seq::empty();
        proof {
            assert forall|n: Seq<char>| #![trigger last_named(es, n)] last_named(es, n) is None by {}
        }
        if self.core_profile {
            let ghost e = Entry::Sentinel("GL_core_profile"@);
            st.enter(sentinel(String::from_str("GL_core_profile")), Ghost(es), Ghost(e));
            proof {
                es = es.push(e);
            }
        }
        if self.compatibility_profile {
            let ghost e = Entry::Sentinel("GL_compatibility_profile"@);
            st.enter(sentinel(String::from_str("GL_compatibility_profile")), Ghost(es), Ghost(e));
            proof {
                es = es.push(e);
            }
        }
        if self.es_profile {
            let ghost e = Entry::Sentinel("GL_es_profile"@);
            st.enter(sentinel(String::from_str("GL_es_profile")), Ghost(es), Ghost(e));
            proof {
                es = es.push(e);
            }
        }
        proof {
            assert(es =~= opt_sentinel(orig.core_spec(), "GL_core_profile"@) + opt_sentinel(
                orig.compatibility_spec(),
                "GL_compatibility_profile"@,
            ) + opt_sentinel(orig.es_spec(), "GL_es_profile"@));
        }
        let ghost pre = es;
        let ghost defs0 = self.definitions@;
        let mut defs = self.definitions;
        let n = defs.len();
        let mut k: usize = 0;
        while defs.len() > 0
            invariant
                st.wf(),
                k <= defs0.len() == n,
                defs@ == defs0.skip(k as int),
                table_from(st.table(), es),
                es == pre + Seq::new(
                    k as nat,
                    |i: int| Entry::Exact(Definition::Regular(defs0[i], FileId { id: 0 })),
                ),
                st.version_spec() == (Version { number: 110, profile: VersionProfile::Unspecified }),
                !st.cpp_style_line_spec(),
                st.extensions_spec().len() == 0,
            decreases defs@.len(),
        {
            proof {
                assert(defs0.skip(k as int).len() > 0);
            }
            let d = defs.remove(0);
            proof {
                assert(d == defs0[k as int]);
            }
            let ghost e = Entry::Exact(Definition::Regular(d, FileId { id: 0 }));
            st.enter(Definition::Regular(d, FileId::new(0)), Ghost(es), Ghost(e));
            proof {
                es = es.push(e);
                assert(es =~= pre + Seq::new(
                    (k + 1) as nat,
                    |i: int| Entry::Exact(Definition::Regular(defs0[i], FileId { id: 0 })),
                ));
                assert(defs@ =~= defs0.skip(k + 1));
            }
            k = k + 1;
        }
        proof {
            assert(k == defs0.len());
        }
        let ghost e = Entry::Exact(Definition::Line);
        st.enter(Definition::Line, Ghost(es), Ghost(e));
        proof {
            es = es.push(e);
        }
        let ghost e = Entry::Exact(Definition::File);
        st.enter(Definition::File, Ghost(es), Ghost(e));
        proof {
            es = es.push(e);
        }
        let ghost e = Entry::Exact(Definition::Version);
        st.enter(Definition::Version, Ghost(es), Ghost(e));
        proof {
            es = es.push(e);
        }
        match self.registry {
            Some(reg) => {
                st.enter_sentinels(reg, Ghost(es));
                proof {
                    assert(es + Seq::new(reg.names().len(), |i: int| Entry::Sentinel(reg.names()[i]))
                        =~= orig.entries());
                }
            },
            None => {
                let reg = Registry::default_registry();
                st.enter_sentinels(&reg, Ghost(es));
                proof {
                    assert(es + Seq::new(reg.names().len(), |i: int| Entry::Sentinel(reg.names()[i]))
                        =~= orig.entries());
                }
            },
        }
        st.extension_stack = extensions;
        st
    }
}

/// The definitions of the default state, in order.
pub open spec fn default_entries() -> Seq<Entry> {
    seq![
        Entry::Sentinel("GL_core_profile"@),
        Entry::Exact(Definition::Line),
        Entry::Exact(Definition::File),
        Entry::Exact(Definition::Version),
        Entry::Sentinel("GL_ARB_shading_language_include"@),
        Entry::Sentinel("GL_GOOGLE_include_directive"@),
        Entry::Sentinel("GL_GOOGLE_cpp_style_line_directive"@),
    ]
}

impl ProcessorState {
    /// A builder with the default settings.
    pub fn builder() -> (r: ProcessorStateBuilder<'static>)
        ensures
            r.core_spec(),
            !r.compatibility_spec(),
            !r.es_spec(),
            r.extensions_spec().len() == 0,
            r.definitions_spec().len() == 0,
            r.registry_names() == Registry::default_registry_names(),
    {
        ProcessorStateBuilder::default()
    }
}

impl Default for ProcessorState {
    /// The state that the default builder makes.
    fn default() -> (r: ProcessorState)
        ensures
            r.wf(),
            table_from(r.table(), default_entries()),
            r.version_spec() == (Version { number: 110, profile: VersionProfile::Unspecified }),
            !r.cpp_style_line_spec(),
            r.extensions_spec().len() == 0,
    {
        let b = ProcessorStateBuilder::default();
        proof {
            assert(b.entries() =~= default_entries());
        }
        b.finish()
    }
}

proof fn lemma_table_len(s: Seq<Definition>)
    requires
        names_unique(s),
    ensures
        table_of(s).dom().len() == s.len(),
        table_of(s).dom().finite(),
    decreases s.len(),
{
    if s.len() > 0 {
        let p = s.drop_last();
        assert(names_unique(p)) by {
            assert forall|a: int, b: int| 0 <= a < b < p.len() implies def_name(p[a]) != def_name(
                p[b],
            ) by {
                assert(p[a] == s[a] && p[b] == s[b]);
            }
        }
        lemma_table_len(p);
        lemma_table_index(p);
        if table_of(p).contains_key(def_name(s.last())) {
            let i = choose|i: int| 0 <= i < p.len() && def_name(p[i]) == def_name(s.last());
            assert(p[i] == s[i]);
            assert(false);
        }
        assert(table_of(s).dom() =~= table_of(p).dom().insert(def_name(s.last())));
    } else {
        assert(table_of(s).dom() =~= Set::<Seq<char>>::empty());
    }
}

proof fn lemma_table_remove(s: Seq<Definition>, i: int)
    requires
        names_unique(s),
        0 <= i < s.len(),
    ensures
        table_of(s.remove(i)) == table_of(s).remove(def_name(s[i])),
        names_unique(s.remove(i)),
    decreases s.len(),
{
    let u = s.remove(i);
    let p = s.drop_last();
    let n = def_name(s[i]);
    assert(names_unique(p)) by {
        assert forall|a: int, b: int| 0 <= a < b < p.len() implies def_name(p[a]) != def_name(
            p[b],
        ) by {
            assert(p[a] == s[a] && p[b] == s[b]);
        }
    }
    assert(names_unique(u)) by {
        assert forall|a: int, b: int| 0 <= a < b < u.len() implies def_name(u[a]) != def_name(
            u[b],
        ) by {
            let a2 = if a < i { a } else { a + 1 };
            let b2 = if b < i { b } else { b + 1 };
            assert(u[a] == s[a2] && u[b] == s[b2]);
        }
    }
    if i == s.len() - 1 {
        assert(u =~= p);
        lemma_table_index(p);
        assert forall|k: int| 0 <= k < p.len() implies def_name(p[k]) != n by {
            assert(p[k] == s[k]);
        }
        assert(!table_of(p).contains_key(n));
        assert(table_of(u) =~= table_of(s).remove(n));
    } else {
        assert(u.drop_last() =~= p.remove(i));
        assert(u.last() == s.last());
        assert(p[i] == s[i]);
        lemma_table_remove(p, i);
        assert(def_name(s.last()) != n);
        assert(table_of(u) =~= table_of(s).remove(n));
    }
}

impl ProcessorState {
    /// Number of entries of the definition table.
    pub closed spec fn count(&self) -> nat {
        self.definitions@.len()
    }

    /// Number of entries of the definition table.
    pub fn definition_count(&self) -> (r: usize)
        requires
            self.wf(),
        ensures
            r == self.count(),
            r == self.table().dom().len(),
    {
        proof {
            lemma_table_len(self.definitions@);
        }
        self.definitions.len()
    }

    /// Removes the definition named `name`, unless it is protected or absent. Returns
    /// whether a definition was removed.
    pub fn undefine(&mut self, name: &String) -> (r: bool)
        requires
            old(self).wf(),
        ensures
            final(self).wf(),
            r == (old(self).table().contains_key(name@) && !def_protected(
                old(self).table()[name@],
            )),
            !r ==> *final(self) == *old(self),
            r ==> final(self).table() == old(self).table().remove(name@),
            final(self).version_spec() == old(self).version_spec(),
            final(self).cpp_style_line_spec() == old(self).cpp_style_line_spec(),
            final(self).extensions_spec() == old(self).extensions_spec(),
    {
        proof {
            lemma_table_index(self.definitions@);
        }
        match self.position(name) {
            Some(i) => {
                proof {
                    assert(table_of(self.definitions@).contains_key(
                        def_name(self.definitions@[i as int]),
                    ));
                }
                if self.definitions[i].protected() {
                    return false;
                }
                proof {
                    lemma_table_remove(self.definitions@, i as int);
                }
                self.definitions.remove(i);
                true
            },
            None => false,
        }
    }
}

impl ProcessorState {
    /// Sets the version in effect (`#version`).
    pub fn set_version(&mut self, version: Version)
        ensures
            final(self).table() == old(self).table(),
            final(self).wf() == old(self).wf(),
            final(self).version_spec() == version,
            final(self).cpp_style_line_spec() == old(self).cpp_style_line_spec(),
            final(self).extensions_spec() == old(self).extensions_spec(),
    {
        self.version = version;
    }

    /// Sets whether the cpp-style line directive is in effect.
    pub fn set_cpp_style_line(&mut self, cpp_style_line: bool)
        ensures
            final(self).table() == old(self).table(),
            final(self).wf() == old(self).wf(),
            final(self).version_spec() == old(self).version_spec(),
            final(self).cpp_style_line_spec() == cpp_style_line,
            final(self).extensions_spec() == old(self).extensions_spec(),
    {
        self.cpp_style_line = cpp_style_line;
    }
}

impl ProcessorState {
    /// Records an extension directive (`#extension`).
    pub fn push_extension(&mut self, name: ExtensionName, behavior: ExtensionBehavior)
        ensures
            final(self).table() == old(self).table(),
            final(self).wf() == old(self).wf(),
            final(self).version_spec() == old(self).version_spec(),
            final(self).cpp_style_line_spec() == old(self).cpp_style_line_spec(),
            final(self).extensions_spec() == old(self).extensions_spec().push((name, behavior)),
    {
        self.extension_stack.push((name, behavior));
    }

    /// The extension directives in force, oldest first.
    pub fn extensions(&self) -> (r: &Vec<(ExtensionName, ExtensionBehavior)>)
        ensures
            r@ == self.extensions_spec(),
    {
        &self.extension_stack
    }
}

} // verus!
