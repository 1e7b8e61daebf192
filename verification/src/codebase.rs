//! What is known of the code base: its symbols and its classlikes.
use crate::ids::MethodIdentifier;
use crate::str_map::{has_key, lookup, NameSet, StrMap};
use crate::text::Text;
use crate::types::{wrap_atomic, wrapped, AtomicView, TAtomic, TUnion};
use vstd::prelude::*;

verus! {

/// What a name stands for.
#[derive(Clone, Copy, PartialEq, Eq, Structural, Debug, Hash)]
pub enum SymbolKind {
    Class,
    Enum,
    EnumClass,
    Trait,
    Interface,
    TypeDefinition,
    Function,
    Constant,
}

/// The symbols of the code base.
#[derive(Debug)]
pub struct Symbols {
    pub all: StrMap<SymbolKind>,
    pub classlike_files: StrMap<String>,
}

/// A constant of a classlike.
#[derive(Debug)]
pub struct ConstantInfo {
    pub inferred_type: Option<TUnion>,
    pub provided_type: Option<TUnion>,
}

/// A property of a classlike.
#[derive(Debug)]
pub struct PropertyInfo {
    pub type_: TUnion,
}

/// A function or method.
#[derive(Debug)]
pub struct FunctionLikeInfo {
    pub name: String,
    pub return_type: Option<TUnion>,
}

/// A class, interface, enum or trait.
#[derive(Debug)]
pub struct ClassLikeInfo {
    pub name: String,
    pub kind: SymbolKind,
    /// The class that this one extends directly.
    pub direct_parent_class: Option<String>,
    pub all_parent_classes: NameSet,
    pub all_parent_interfaces: NameSet,
    pub all_class_interfaces: NameSet,
    /// The positions of the type parameters that are covariant.
    pub template_covariants: Vec<usize>,
    /// For each classlike that this one extends or implements, the type
    /// arguments that it passes to it.
    pub template_extended_params: StrMap<Vec<TUnion>>,
    pub constants: StrMap<ConstantInfo>,
    pub declaring_property_ids: StrMap<String>,
    pub declaring_method_ids: StrMap<String>,
    pub appearing_method_ids: StrMap<String>,
    pub properties: StrMap<PropertyInfo>,
    pub methods: StrMap<FunctionLikeInfo>,
}

/// The code base.
#[derive(Debug)]
pub struct CodebaseInfo {
    pub classlike_infos: StrMap<ClassLikeInfo>,
    pub functionlike_infos: StrMap<FunctionLikeInfo>,
    pub symbols: Symbols,
    pub infer_types_from_usage: bool,
    pub register_stub_files: bool,
}

impl ClassLikeInfo {
    /// The representation invariant of the maps and sets of the classlike.
    pub open spec fn wf(&self) -> bool {
        &&& self.all_parent_classes.wf()
        &&& self.all_parent_interfaces.wf()
        &&& self.all_class_interfaces.wf()
        &&& self.template_extended_params.wf()
        &&& self.constants.wf()
        &&& self.declaring_property_ids.wf()
        &&& self.declaring_method_ids.wf()
        &&& self.appearing_method_ids.wf()
        &&& self.properties.wf()
        &&& self.methods.wf()
    }

    /// A classlike of the given name and kind of which nothing else is
    /// known.
    pub fn new(name: String, kind: SymbolKind) -> (r: Self)
        ensures
            r.wf(),
            r.name == name,
            r.kind == kind,
            r.direct_parent_class is None,
            r.all_parent_classes@ == Set::<Text>::empty(),
            r.all_parent_interfaces@ == Set::<Text>::empty(),
            r.all_class_interfaces@ == Set::<Text>::empty(),
            r.template_covariants@ == Seq::<usize>::empty(),
            r.template_extended_params.entries() == Seq::<(Text, Vec<TUnion>)>::empty(),
            r.constants.entries() == Seq::<(Text, ConstantInfo)>::empty(),
    {
        ClassLikeInfo {
            name,
            kind,
            direct_parent_class: None,
            all_parent_classes: NameSet::new(),
            all_parent_interfaces: NameSet::new(),
            all_class_interfaces: NameSet::new(),
            template_covariants: Vec::new(),
            template_extended_params: StrMap::new(),
            constants: StrMap::new(),
            declaring_property_ids: StrMap::new(),
            declaring_method_ids: StrMap::new(),
            appearing_method_ids: StrMap::new(),
            properties: StrMap::new(),
            methods: StrMap::new(),
        }
    }
}

/// The kind of the symbol of the given name.
pub open spec fn symbol_kind(cb: CodebaseInfo, name: Text) -> Option<SymbolKind> {
    lookup(cb.symbols.all.entries(), name)
}

/// What is known of the classlike of the given name.
pub open spec fn class_info(cb: CodebaseInfo, name: Text) -> Option<ClassLikeInfo> {
    lookup(cb.classlike_infos.entries(), name)
}

/// The name is that of a class.
pub open spec fn is_class(cb: CodebaseInfo, name: Text) -> bool {
    symbol_kind(cb, name) == Some(SymbolKind::Class)
}

/// The name is that of an interface.
pub open spec fn is_interface(cb: CodebaseInfo, name: Text) -> bool {
    symbol_kind(cb, name) == Some(SymbolKind::Interface)
}

/// The name is that of a class, an interface, an enum or a trait.
pub open spec fn is_classlike(cb: CodebaseInfo, name: Text) -> bool {
    symbol_kind(cb, name) == Some(SymbolKind::Class) || symbol_kind(cb, name) == Some(
        SymbolKind::Interface,
    ) || symbol_kind(cb, name) == Some(SymbolKind::Enum) || symbol_kind(cb, name) == Some(
        SymbolKind::Trait,
    )
}

/// The class `child` has the class `parent` among its ancestors.
pub open spec fn extends(cb: CodebaseInfo, child: Text, parent: Text) -> bool {
    class_info(cb, child) matches Some(info) && info.all_parent_classes@.contains(parent)
}

/// The class `child` implements the interface `parent`.
pub open spec fn implements(cb: CodebaseInfo, child: Text, parent: Text) -> bool {
    class_info(cb, child) matches Some(info) && info.all_class_interfaces@.contains(parent)
}

/// The interface `child` has the interface `parent` among its ancestors.
pub open spec fn interface_descends(cb: CodebaseInfo, child: Text, parent: Text) -> bool {
    class_info(cb, child) matches Some(info) && info.all_parent_interfaces@.contains(parent)
}

/// The type of a constant of a classlike: of an enum, the case itself;
/// else the inferred type or, failing that, the declared one.
pub open spec fn class_constant_type(
    cb: CodebaseInfo,
    class_name: Text,
    const_name: Text,
) -> Option<crate::types::UnionView> {
    match class_info(cb, class_name) {
        Some(info) => match lookup(info.constants.entries(), const_name) {
            Some(constant) => if info.kind == SymbolKind::Enum {
                Some(
                    wrapped(
                        AtomicView::TEnumLiteralCase {
                            enum_name: info.name@,
                            member_name: const_name,
                        },
                    ),
                )
            } else {
                match constant.inferred_type {
                    Some(t) => Some(t@),
                    None => match constant.provided_type {
                        Some(t) => Some(t@),
                        None => None,
                    },
                }
            },
            None => None,
        },
        None => None,
    }
}

impl CodebaseInfo {
    /// The representation invariant of the maps of the code base.
    pub open spec fn wf(&self) -> bool {
        &&& self.classlike_infos.wf()
        &&& self.functionlike_infos.wf()
        &&& self.symbols.all.wf()
        &&& self.symbols.classlike_files.wf()
        &&& forall|i: int|
            0 <= i < self.classlike_infos.entries().len() ==> (
            #[trigger] self.classlike_infos.entries()[i]).1.wf()
    }

    /// An empty code base.
    pub fn new() -> (r: Self)
        ensures
            r.wf(),
            r.classlike_infos.entries() == Seq::<(Text, ClassLikeInfo)>::empty(),
            r.functionlike_infos.entries() == Seq::<(Text, FunctionLikeInfo)>::empty(),
            r.symbols.all.entries() == Seq::<(Text, SymbolKind)>::empty(),
            r.symbols.classlike_files.entries() == Seq::<(Text, String)>::empty(),
            !r.infer_types_from_usage,
            !r.register_stub_files,
    {
        Self {
            classlike_infos: StrMap::new(),
            functionlike_infos: StrMap::new(),
            symbols: Symbols { all: StrMap::new(), classlike_files: StrMap::new() },
            infer_types_from_usage: false,
            register_stub_files: false,
        }
    }

    /// Takes over what `other` knows; where both know a name, what `other`
    /// knows of it stands.
    pub fn extend(&mut self, other: CodebaseInfo)
        requires
            old(self).wf(),
            other.wf(),
        ensures
            final(self).wf(),
            final(self).classlike_infos.entries() == crate::str_map::put_all(
                old(self).classlike_infos.entries(),
                other.classlike_infos.entries(),
            ),
            final(self).functionlike_infos.entries() == crate::str_map::put_all(
                old(self).functionlike_infos.entries(),
                other.functionlike_infos.entries(),
            ),
            final(self).symbols.all.entries() == crate::str_map::put_all(
                old(self).symbols.all.entries(),
                other.symbols.all.entries(),
            ),
            final(self).symbols.classlike_files.entries() == crate::str_map::put_all(
                old(self).symbols.classlike_files.entries(),
                other.symbols.classlike_files.entries(),
            ),
            final(self).infer_types_from_usage == old(self).infer_types_from_usage,
            final(self).register_stub_files == old(self).register_stub_files,
    {
        let ghost mine = self.classlike_infos.entries();
        let ghost theirs = other.classlike_infos.entries();
        proof {
            crate::str_map::lemma_put_all(mine, theirs);
        }
        self.classlike_infos.extend(other.classlike_infos);
        self.functionlike_infos.extend(other.functionlike_infos);
        self.symbols.all.extend(other.symbols.all);
        self.symbols.classlike_files.extend(other.symbols.classlike_files);
        proof {
            let merged = self.classlike_infos.entries();
            assert forall|i: int| 0 <= i < merged.len() implies (#[trigger] merged[i]).1.wf() by {
                let k = merged[i].0;
                crate::str_map::lemma_index_unique(merged, i);
                assert(has_key(merged, k));
                if has_key(theirs, k) {
                    let j = crate::str_map::index_of_key(theirs, k);
                    crate::str_map::lemma_index_unique(theirs, j);
                    assert(theirs[j].1.wf());
                } else {
                    let j = crate::str_map::index_of_key(mine, k);
                    crate::str_map::lemma_index_unique(mine, j);
                    assert(mine[j].1.wf());
                }
            }
        }
    }

    /// What is known of the classlike of the given name.
    pub fn classlike(&self, name: &str) -> (r: Option<&ClassLikeInfo>)
        requires
            self.wf(),
        ensures
            match r {
                Some(info) => class_info(*self, name@) == Some(*info) && info.wf(),
                None => class_info(*self, name@) is None,
            },
    {
        let r = self.classlike_infos.get(name);
        proof {
            if r.is_some() {
                let i = crate::str_map::index_of_key(self.classlike_infos.entries(), name@);
                crate::str_map::lemma_index_unique(self.classlike_infos.entries(), i);
            }
        }
        r
    }

    /// True when the name is that of a class or an interface.
    pub fn class_or_interface_exists(&self, fq_class_name: &String) -> (r: bool)
        requires
            self.wf(),
        ensures
            r == (is_class(*self, fq_class_name@) || is_interface(*self, fq_class_name@)),
    {
        match self.symbols.all.get(fq_class_name.as_str()) {
            Some(SymbolKind::Class) | Some(SymbolKind::Interface) => true,
            _ => false,
        }
    }

    /// True when the name is that of a class, an interface or an enum.
    pub fn class_or_interface_or_enum_exists(&self, fq_class_name: &String) -> (r: bool)
        requires
            self.wf(),
        ensures
            r == (is_class(*self, fq_class_name@) || is_interface(*self, fq_class_name@)
                || symbol_kind(*self, fq_class_name@) == Some(SymbolKind::Enum)),
    {
        match self.symbols.all.get(fq_class_name.as_str()) {
            Some(SymbolKind::Class) | Some(SymbolKind::Interface) | Some(SymbolKind::Enum) => true,
            _ => false,
        }
    }

    /// True when the name is that of a class, an interface, an enum or a
    /// trait.
    pub fn class_or_interface_or_enum_or_trait_exists(&self, fq_class_name: &String) -> (r: bool)
        requires
            self.wf(),
        ensures
            r == is_classlike(*self, fq_class_name@),
    {
        match self.symbols.all.get(fq_class_name.as_str()) {
            Some(SymbolKind::Class)
            | Some(SymbolKind::Interface)
            | Some(SymbolKind::Enum)
            | Some(SymbolKind::Trait) => true,
            _ => false,
        }
    }

    /// True when the name is that of a class.
    pub fn class_exists(&self, fq_class_name: &String) -> (r: bool)
        requires
            self.wf(),
        ensures
            r == is_class(*self, fq_class_name@),
    {
        match self.symbols.all.get(fq_class_name.as_str()) {
            Some(SymbolKind::Class) => true,
            _ => false,
        }
    }

    /// True when the name is that of an interface.
    pub fn interface_exists(&self, fq_class_name: &String) -> (r: bool)
        requires
            self.wf(),
        ensures
            r == is_interface(*self, fq_class_name@),
    {
        match self.symbols.all.get(fq_class_name.as_str()) {
            Some(SymbolKind::Interface) => true,
            _ => false,
        }
    }

    /// True when the name is that of a type definition.
    pub fn typedef_exists(&self, fq_alias_name: &String) -> (r: bool)
        requires
            self.wf(),
        ensures
            r == (symbol_kind(*self, fq_alias_name@) == Some(SymbolKind::TypeDefinition)),
    {
        match self.symbols.all.get(fq_alias_name.as_str()) {
            Some(SymbolKind::TypeDefinition) => true,
            _ => false,
        }
    }

    /// True when the class `child_class` has `parent_class` among its
    /// ancestors.
    pub fn class_extends(&self, child_class: &String, parent_class: &String) -> (r: bool)
        requires
            self.wf(),
        ensures
            r == extends(*self, child_class@, parent_class@),
    {
        match self.classlike(child_class.as_str()) {
            Some(info) => info.all_parent_classes.contains(parent_class.as_str()),
            None => false,
        }
    }

    /// True when the class `child_class` extends or implements
    /// `parent_class`.
    pub fn class_extends_or_implements(&self, child_class: &String, parent_class: &String) -> (r:
        bool)
        requires
            self.wf(),
        ensures
            r == (extends(*self, child_class@, parent_class@) || implements(
                *self,
                child_class@,
                parent_class@,
            )),
    {
        self.class_extends(child_class, parent_class) || self.class_implements(
            child_class,
            parent_class,
        )
    }

    /// True when the interface `child_class` has `parent_class` among its
    /// ancestors.
    pub fn interface_extends(&self, child_class: &String, parent_class: &String) -> (r: bool)
        requires
            self.wf(),
        ensures
            r == interface_descends(*self, child_class@, parent_class@),
    {
        match self.classlike(child_class.as_str()) {
            Some(info) => info.all_parent_interfaces.contains(parent_class.as_str()),
            None => false,
        }
    }

    /// True when the class `child_class` implements `parent_class`.
    pub fn class_implements(&self, child_class: &String, parent_class: &String) -> (r: bool)
        requires
            self.wf(),
        ensures
            r == implements(*self, child_class@, parent_class@),
    {
        match self.classlike(child_class.as_str()) {
            Some(info) => info.all_class_interfaces.contains(parent_class.as_str()),
            None => false,
        }
    }

    /// The type of a constant of a classlike.
    pub fn get_class_constant_type(&self, fq_class_name: &String, const_name: &String) -> (r:
        Option<TUnion>)
        requires
            self.wf(),
        ensures
            match r {
                Some(t) => class_constant_type(*self, fq_class_name@, const_name@) == Some(t@),
                None => class_constant_type(*self, fq_class_name@, const_name@) is None,
            },
    {
        match self.classlike(fq_class_name.as_str()) {
            Some(info) => match info.constants.get(const_name.as_str()) {
                Some(constant) => {
                    if matches!(info.kind, SymbolKind::Enum) {
                        Some(
                            wrap_atomic(
                                TAtomic::TEnumLiteralCase {
                                    enum_name: info.name.clone(),
                                    member_name: const_name.clone(),
                                },
                            ),
                        )
                    } else {
                        match &constant.inferred_type {
                            Some(t) => Some(t.clone()),
                            None => match &constant.provided_type {
                                Some(t) => Some(t.clone()),
                                None => None,
                            },
                        }
                    }
                },
                None => None,
            },
            None => None,
        }
    }

    /// True when the classlike has a property of the given name.
    pub fn property_exists(&self, classlike_name: &String, property_name: &String) -> (r: bool)
        requires
            self.wf(),
        ensures
            r == (class_info(*self, classlike_name@) matches Some(info) && has_key(
                info.declaring_property_ids.entries(),
                property_name@,
            )),
    {
        match self.classlike(classlike_name.as_str()) {
            Some(info) => info.declaring_property_ids.contains_key(property_name.as_str()),
            None => false,
        }
    }

    /// True when the classlike has a method of the given name.
    pub fn method_exists(&self, classlike_name: &String, method_name: &String) -> (r: bool)
        requires
            self.wf(),
        ensures
            r == (class_info(*self, classlike_name@) matches Some(info) && has_key(
                info.declaring_method_ids.entries(),
                method_name@,
            )),
    {
        match self.classlike(classlike_name.as_str()) {
            Some(info) => info.declaring_method_ids.contains_key(method_name.as_str()),
            None => false,
        }
    }

    /// The classlike that declares the property.
    pub fn get_declaring_class_for_property(
        &self,
        fq_class_name: &String,
        property_name: &String,
    ) -> (r: Option<&String>)
        requires
            self.wf(),
        ensures
            match r {
                Some(name) => class_info(*self, fq_class_name@) matches Some(info) && lookup(
                    info.declaring_property_ids.entries(),
                    property_name@,
                ) == Some(*name),
                None => !(class_info(*self, fq_class_name@) matches Some(info) && has_key(
                    info.declaring_property_ids.entries(),
                    property_name@,
                )),
            },
    {
        match self.classlike(fq_class_name.as_str()) {
            Some(info) => info.declaring_property_ids.get(property_name.as_str()),
            None => None,
        }
    }

    /// The type of a property: that which the declaring classlike gives it.
    pub fn get_property_type(&self, fq_class_name: &String, property_name: &String) -> (r: Option<
        TUnion,
    >)
        requires
            self.wf(),
        ensures
            match r {
                Some(t) => property_type(*self, fq_class_name@, property_name@) == Some(t@),
                None => property_type(*self, fq_class_name@, property_name@) is None,
            },
    {
        match self.classlike(fq_class_name.as_str()) {
            Some(info) => match info.declaring_property_ids.get(property_name.as_str()) {
                Some(declaring) => match self.classlike(declaring.as_str()) {
                    Some(declaring_info) => match declaring_info.properties.get(
                        property_name.as_str(),
                    ) {
                        Some(property) => Some(property.type_.clone()),
                        None => None,
                    },
                    None => None,
                },
                None => None,
            },
            None => None,
        }
    }

    /// The method as the classlike that declares it knows it.
    pub fn get_declaring_method_id(&self, method_id: &MethodIdentifier) -> (r: MethodIdentifier)
        requires
            self.wf(),
        ensures
            r.1@ == method_id.1@,
            r.0@ == match class_info(*self, method_id.0@) {
                Some(info) => match lookup(info.declaring_method_ids.entries(), method_id.1@) {
                    Some(name) => name@,
                    None => method_id.0@,
                },
                None => method_id.0@,
            },
    {
        match self.classlike(method_id.0.as_str()) {
            Some(info) => {
                let name = match info.declaring_method_ids.get(method_id.1.as_str()) {
                    Some(n) => n.clone(),
                    None => method_id.0.clone(),
                };
                MethodIdentifier(name, method_id.1.clone())
            },
            None => MethodIdentifier(method_id.0.clone(), method_id.1.clone()),
        }
    }

    /// The method as the classlike in which it appears knows it.
    pub fn get_appearing_method_id(&self, method_id: &MethodIdentifier) -> (r: MethodIdentifier)
        requires
            self.wf(),
        ensures
            r.1@ == method_id.1@,
            r.0@ == match class_info(*self, method_id.0@) {
                Some(info) => match lookup(info.appearing_method_ids.entries(), method_id.1@) {
                    Some(name) => name@,
                    None => method_id.0@,
                },
                None => method_id.0@,
            },
    {
        match self.classlike(method_id.0.as_str()) {
            Some(info) => {
                let name = match info.appearing_method_ids.get(method_id.1.as_str()) {
                    Some(n) => n.clone(),
                    None => method_id.0.clone(),
                };
                MethodIdentifier(name, method_id.1.clone())
            },
            None => MethodIdentifier(method_id.0.clone(), method_id.1.clone()),
        }
    }

    /// What is known of the method.
    pub fn get_method(&self, method_id: &MethodIdentifier) -> (r: Option<&FunctionLikeInfo>)
        requires
            self.wf(),
        ensures
            match r {
                Some(m) => class_info(*self, method_id.0@) matches Some(info) && lookup(
                    info.methods.entries(),
                    method_id.1@,
                ) == Some(*m),
                None => !(class_info(*self, method_id.0@) matches Some(info) && has_key(
                    info.methods.entries(),
                    method_id.1@,
                )),
            },
    {
        match self.classlike(method_id.0.as_str()) {
            Some(info) => info.methods.get(method_id.1.as_str()),
            None => None,
        }
    }
}

/// The type of a property: that which the declaring classlike gives it.
pub open spec fn property_type(cb: CodebaseInfo, class_name: Text, property_name: Text) -> Option<
    crate::types::UnionView,
> {
    match class_info(cb, class_name) {
        Some(info) => match lookup(info.declaring_property_ids.entries(), property_name) {
            Some(declaring) => match class_info(cb, declaring@) {
                Some(declaring_info) => match lookup(
                    declaring_info.properties.entries(),
                    property_name,
                ) {
                    Some(property) => Some(property.type_@),
                    None => None,
                },
                None => None,
            },
            None => None,
        },
        None => None,
    }
}

} // verus!
