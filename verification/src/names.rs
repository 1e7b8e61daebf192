//! The classlike that a name in the source stands for.
use crate::codebase::{class_info, CodebaseInfo};
use crate::text::{str_same, Text};
use std::collections::HashMap;
use vstd::prelude::*;
use vstd::string::*;

verus! {

broadcast use vstd::std_specs::hash::group_hash_axioms;

/// A name as it stands in the source: the offset at which it starts, and
/// its text.
#[derive(Clone, Debug, PartialEq, Eq)]
pub struct Id(pub usize, pub String);

/// The direct parent of the class; none where the class is not known or
/// has no parent.
pub open spec fn parent_of(cb: CodebaseInfo, class: Text) -> Option<Text> {
    match class_info(cb, class) {
        Some(info) => match info.direct_parent_class {
            Some(parent) => Some(parent@),
            None => None,
        },
        None => None,
    }
}

/// The classlike that the name `name` stands for inside the class
/// `calling_class`: `self` and `static` stand for that class, `parent`
/// for its direct parent, any other name for what `resolved` gives.
pub open spec fn name_meant(
    cb: CodebaseInfo,
    name: Text,
    calling_class: Option<Text>,
    resolved: Option<Text>,
) -> Option<Text> {
    if name == "self"@ || name == "static"@ {
        calling_class
    } else if name == "parent"@ {
        match calling_class {
            Some(class) => parent_of(cb, class),
            None => None,
        }
    } else {
        resolved
    }
}

/// The three names with a meaning of their own are different names.
proof fn lemma_keywords_differ()
    ensures
        "self"@ != "parent"@,
        "self"@ != "static"@,
        "parent"@ != "static"@,
{
    reveal_strlit("self");
    reveal_strlit("parent");
    reveal_strlit("static");
    assert("self"@.len() == 4);
    assert("parent"@.len() == 6);
    assert("static"@.len() == 6);
    assert("parent"@[0] == 'p');
    assert("static"@[0] == 's');
}

/// The text of an optional name.
pub open spec fn opt_name(o: Option<String>) -> Option<Text> {
    match o {
        Some(s) => Some(s@),
        None => None,
    }
}

/// The classlike that the name stands for; none where it stands for none
/// that is known. A `static` in a class that is not final sets
/// `is_static`.
pub fn get_id_name(
    id: &Id,
    calling_class: &Option<String>,
    calling_class_final: bool,
    codebase: &CodebaseInfo,
    is_static: &mut bool,
    resolved_names: &HashMap<usize, String>,
) -> (r: Option<String>)
    requires
        codebase.wf(),
        id.1@ == "parent"@ && *calling_class is Some ==> parent_of(
            *codebase,
            calling_class->0@,
        ) is Some,
    ensures
        opt_name(r) == name_meant(
            *codebase,
            id.1@,
            opt_name(*calling_class),
            if resolved_names@.contains_key(id.0) {
                Some(resolved_names@[id.0]@)
            } else {
                None
            },
        ),
        *final(is_static) == (*old(is_static) || (id.1@ == "static"@ && !calling_class_final)),
{
    proof {
        lemma_keywords_differ();
    }
    if str_same(id.1.as_str(), "self") {
        match calling_class {
            Some(class) => Some(class.clone()),
            None => None,
        }
    } else if str_same(id.1.as_str(), "parent") {
        match calling_class {
            Some(class) => match codebase.classlike(class.as_str()) {
                Some(info) => match &info.direct_parent_class {
                    Some(parent) => Some(parent.clone()),
                    None => None,
                },
                None => None,
            },
            None => None,
        }
    } else if str_same(id.1.as_str(), "static") {
        if !calling_class_final {
            *is_static = true;
        }
        match calling_class {
            Some(class) => Some(class.clone()),
            None => None,
        }
    } else {
        match resolved_names.get(&id.0) {
            Some(resolved_name) => Some(resolved_name.clone()),
            None => None,
        }
    }
}

/// The classlike that the name stands for, where that is known without
/// the table of resolved names: `static` stands for none, and a name other
/// than `self` and `parent` for itself.
pub fn get_id_str_name<'a>(
    id: &'a str,
    calling_class: &'a Option<String>,
    codebase: &'a CodebaseInfo,
) -> (r: Option<&'a str>)
    requires
        codebase.wf(),
        id@ == "parent"@ && *calling_class is Some ==> parent_of(*codebase, calling_class->0@)
            is Some,
    ensures
        match r {
            Some(name) => id@ != "static"@ && Some(name@) == name_meant(
                *codebase,
                id@,
                opt_name(*calling_class),
                Some(id@),
            ),
            None => id@ == "static"@ || name_meant(
                *codebase,
                id@,
                opt_name(*calling_class),
                Some(id@),
            ) is None,
        },
{
    proof {
        lemma_keywords_differ();
    }
    if str_same(id, "self") {
        match calling_class {
            Some(class) => Some(class.as_str()),
            None => None,
        }
    } else if str_same(id, "parent") {
        match calling_class {
            Some(class) => match codebase.classlike(class.as_str()) {
                Some(info) => match &info.direct_parent_class {
                    Some(parent) => Some(parent.as_str()),
                    None => None,
                },
                None => None,
            },
            None => None,
        }
    } else if str_same(id, "static") {
        None
    } else {
        Some(id)
    }
}

} // verus!
