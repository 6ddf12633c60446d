//! The federation object model that a federation runs under.
//!
//! The model is plain data: the classes with their parents and the names that
//! they declare, and the tables that give handles to names. Loading the modules
//! of a model and merging them happens outside; here the model is only read.

use crate::handles::{
    AttributeHandle, DimensionHandle, InteractionClassHandle, ObjectClassHandle, ParameterHandle,
};
use crate::text::same_text;
use vstd::prelude::*;

verus! {

/// An object class or an interaction class.
#[derive(Debug)]
pub struct ClassDef {
    pub handle: u32,
    pub name: String,
    /// The name of the parent class; `None` for a root.
    pub parent: Option<String>,
    /// The names of the attributes or parameters that the class declares.
    pub members: Vec<String>,
}

/// The handle of an attribute or parameter as seen from a class.
#[derive(Debug)]
pub struct MemberDef {
    pub class: u32,
    pub name: String,
    pub handle: u32,
}

/// A dimension of the routing space.
#[derive(Debug)]
pub struct DimensionDef {
    pub name: String,
    pub handle: DimensionHandle,
}

/// A federation object model.
#[derive(Debug)]
pub struct MergedFom {
    pub object_classes: Vec<ClassDef>,
    pub attributes: Vec<MemberDef>,
    pub interaction_classes: Vec<ClassDef>,
    pub parameters: Vec<MemberDef>,
    pub dimensions: Vec<DimensionDef>,
}

/// The mathematical content of [`ClassDef`].
pub struct ClassView {
    pub handle: u32,
    pub name: Seq<char>,
    pub parent: Option<Seq<char>>,
    pub members: Seq<Seq<char>>,
}

/// The mathematical content of [`MemberDef`].
pub struct MemberView {
    pub class: u32,
    pub name: Seq<char>,
    pub handle: u32,
}

/// The mathematical content of [`DimensionDef`].
pub struct DimensionView {
    pub name: Seq<char>,
    pub handle: u32,
}

/// The mathematical content of [`MergedFom`].
#[verifier::ext_equal]
pub struct FomView {
    pub object_classes: Seq<ClassView>,
    pub attributes: Seq<MemberView>,
    pub interaction_classes: Seq<ClassView>,
    pub parameters: Seq<MemberView>,
    pub dimensions: Seq<DimensionView>,
}

impl View for ClassDef {
    type V = ClassView;

    open spec fn view(&self) -> ClassView {
        ClassView {
            handle: self.handle,
            name: self.name@,
            parent: match self.parent {
                Some(p) => Some(p@),
                None => None,
            },
            members: self.members@.map_values(|s: String| s@),
        }
    }
}

impl View for MemberDef {
    type V = MemberView;

    open spec fn view(&self) -> MemberView {
        MemberView { class: self.class, name: self.name@, handle: self.handle }
    }
}

impl View for DimensionDef {
    type V = DimensionView;

    open spec fn view(&self) -> DimensionView {
        DimensionView { name: self.name@, handle: self.handle }
    }
}

impl View for MergedFom {
    type V = FomView;

    open spec fn view(&self) -> FomView {
        FomView {
            object_classes: self.object_classes@.map_values(|c: ClassDef| c@),
            attributes: self.attributes@.map_values(|m: MemberDef| m@),
            interaction_classes: self.interaction_classes@.map_values(|c: ClassDef| c@),
            parameters: self.parameters@.map_values(|m: MemberDef| m@),
            dimensions: self.dimensions@.map_values(|d: DimensionDef| d@),
        }
    }
}

/// The first class with a handle.
pub open spec fn class_with_handle(classes: Seq<ClassView>, h: u32) -> Option<ClassView>
    decreases classes.len(),
{
    if classes.len() == 0 {
        None
    } else if classes[0].handle == h {
        Some(classes[0])
    } else {
        class_with_handle(classes.skip(1), h)
    }
}

/// The handle of the first class with a name.
pub open spec fn handle_of_class(classes: Seq<ClassView>, name: Seq<char>) -> Option<u32>
    decreases classes.len(),
{
    if classes.len() == 0 {
        None
    } else if classes[0].name == name {
        Some(classes[0].handle)
    } else {
        handle_of_class(classes.skip(1), name)
    }
}

/// The handle of the first member with a name, as seen from a class.
pub open spec fn handle_of_member(
    members: Seq<MemberView>,
    class: u32,
    name: Seq<char>,
) -> Option<u32>
    decreases members.len(),
{
    if members.len() == 0 {
        None
    } else if members[0].class == class && members[0].name == name {
        Some(members[0].handle)
    } else {
        handle_of_member(members.skip(1), class, name)
    }
}

/// The handle of the first dimension with a name.
pub open spec fn handle_of_dimension(dimensions: Seq<DimensionView>, name: Seq<char>) -> Option<u32>
    decreases dimensions.len(),
{
    if dimensions.len() == 0 {
        None
    } else if dimensions[0].name == name {
        Some(dimensions[0].handle)
    } else {
        handle_of_dimension(dimensions.skip(1), name)
    }
}

/// The first of `names` whose handle as seen from `class` is `h`.
pub open spec fn member_named(
    names: Seq<Seq<char>>,
    members: Seq<MemberView>,
    class: u32,
    h: u32,
) -> Option<Seq<char>>
    decreases names.len(),
{
    if names.len() == 0 {
        None
    } else if handle_of_member(members, class, names[0]) == Some(h) {
        Some(names[0])
    } else {
        member_named(names.skip(1), members, class, h)
    }
}

/// The parent of a class, where it has one that the model knows.
pub open spec fn parent_of(classes: Seq<ClassView>, h: u32) -> Option<u32> {
    match class_with_handle(classes, h) {
        Some(c) => match c.parent {
            Some(p) => handle_of_class(classes, p),
            None => None,
        },
        None => None,
    }
}

/// A class and its ancestors, nearest first, at most `links` of them.
pub open spec fn ancestry(classes: Seq<ClassView>, h: u32, links: nat) -> Seq<u32>
    decreases links,
{
    if links == 0 {
        Seq::empty()
    } else {
        match parent_of(classes, h) {
            Some(p) => seq![h] + ancestry(classes, p, (links - 1) as nat),
            None => seq![h],
        }
    }
}

/// A class and all its ancestors, nearest first. Every class but the first is a
/// class of the model, and none occurs twice in a model without cycles, so that
/// one link more than there are classes is enough.
pub open spec fn chain(classes: Seq<ClassView>, h: u32) -> Seq<u32> {
    ancestry(classes, h, classes.len() + 1)
}

impl FomView {
    /// Whether the model defines the object class.
    pub open spec fn defines_object_class(self, h: u32) -> bool {
        class_with_handle(self.object_classes, h) is Some
    }

    /// Whether the model defines the interaction class.
    pub open spec fn defines_interaction_class(self, h: u32) -> bool {
        class_with_handle(self.interaction_classes, h) is Some
    }
}

fn find_class(classes: &Vec<ClassDef>, h: u32) -> (r: Option<&ClassDef>)
    ensures
        match r {
            Some(c) => class_with_handle(classes@.map_values(|c: ClassDef| c@), h) == Some(c@),
            None => class_with_handle(classes@.map_values(|c: ClassDef| c@), h) is None,
        },
{
    let ghost all = classes@.map_values(|c: ClassDef| c@);
    let mut i: usize = 0;
    assert(all.skip(0) =~= all);
    while i < classes.len()
        invariant
            i <= classes@.len(),
            all == classes@.map_values(|c: ClassDef| c@),
            class_with_handle(all, h) == class_with_handle(all.skip(i as int), h),
        decreases classes@.len() - i,
    {
        assert(all.skip(i as int).skip(1) =~= all.skip(i + 1));
        if classes[i].handle == h {
            return Some(&classes[i]);
        }
        i = i + 1;
    }
    None
}

fn find_class_named(classes: &Vec<ClassDef>, name: &str) -> (r: Option<u32>)
    ensures
        r == handle_of_class(classes@.map_values(|c: ClassDef| c@), name@),
{
    let ghost all = classes@.map_values(|c: ClassDef| c@);
    let mut i: usize = 0;
    assert(all.skip(0) =~= all);
    while i < classes.len()
        invariant
            i <= classes@.len(),
            all == classes@.map_values(|c: ClassDef| c@),
            handle_of_class(all, name@) == handle_of_class(all.skip(i as int), name@),
        decreases classes@.len() - i,
    {
        assert(all.skip(i as int).skip(1) =~= all.skip(i + 1));
        if same_text(classes[i].name.as_str(), name) {
            return Some(classes[i].handle);
        }
        i = i + 1;
    }
    None
}

fn find_member(members: &Vec<MemberDef>, class: u32, name: &str) -> (r: Option<u32>)
    ensures
        r == handle_of_member(members@.map_values(|m: MemberDef| m@), class, name@),
{
    let ghost all = members@.map_values(|m: MemberDef| m@);
    let mut i: usize = 0;
    assert(all.skip(0) =~= all);
    while i < members.len()
        invariant
            i <= members@.len(),
            all == members@.map_values(|m: MemberDef| m@),
            handle_of_member(all, class, name@) == handle_of_member(
                all.skip(i as int),
                class,
                name@,
            ),
        decreases members@.len() - i,
    {
        assert(all.skip(i as int).skip(1) =~= all.skip(i + 1));
        if members[i].class == class && same_text(members[i].name.as_str(), name) {
            return Some(members[i].handle);
        }
        i = i + 1;
    }
    None
}

fn find_member_name<'a>(
    names: &'a Vec<String>,
    members: &Vec<MemberDef>,
    class: u32,
    h: u32,
) -> (r: Option<&'a String>)
    ensures
        match r {
            Some(n) => member_named(
                names@.map_values(|s: String| s@),
                members@.map_values(|m: MemberDef| m@),
                class,
                h,
            ) == Some(n@),
            None => member_named(
                names@.map_values(|s: String| s@),
                members@.map_values(|m: MemberDef| m@),
                class,
                h,
            ) is None,
        },
{
    let ghost all = names@.map_values(|s: String| s@);
    let ghost known = members@.map_values(|m: MemberDef| m@);
    let mut i: usize = 0;
    assert(all.skip(0) =~= all);
    while i < names.len()
        invariant
            i <= names@.len(),
            all == names@.map_values(|s: String| s@),
            known == members@.map_values(|m: MemberDef| m@),
            member_named(all, known, class, h) == member_named(all.skip(i as int), known, class, h),
        decreases names@.len() - i,
    {
        assert(all.skip(i as int).skip(1) =~= all.skip(i + 1));
        match find_member(members, class, names[i].as_str()) {
            Some(found) => {
                if found == h {
                    return Some(&names[i]);
                }
            },
            None => {},
        }
        i = i + 1;
    }
    None
}

fn find_parent(classes: &Vec<ClassDef>, h: u32) -> (r: Option<u32>)
    ensures
        r == parent_of(classes@.map_values(|c: ClassDef| c@), h),
{
    match find_class(classes, h) {
        Some(c) => match &c.parent {
            Some(p) => find_class_named(classes, p.as_str()),
            None => None,
        },
        None => None,
    }
}

fn list_ancestry(classes: &Vec<ClassDef>, h: u32) -> (r: Vec<u32>)
    ensures
        r@ == chain(classes@.map_values(|c: ClassDef| c@), h),
{
    let ghost all = classes@.map_values(|c: ClassDef| c@);
    let mut r: Vec<u32> = Vec::new();
    let mut current: Option<u32> = Some(h);
    let mut used: usize = 0;
    while used <= classes.len() && current.is_some()
        invariant
            used <= classes@.len() + 1,
            all == classes@.map_values(|c: ClassDef| c@),
            chain(all, h) == (match current {
                Some(c) => r@ + ancestry(all, c, (all.len() + 1 - used) as nat),
                None => r@,
            }),
        decreases classes@.len() + 1 - used,
    {
        if let Some(c) = current {
            let next = find_parent(classes, c);
            proof {
                let left = (all.len() + 1 - used) as nat;
                match next {
                    Some(p) => {
                        assert(r@ + ancestry(all, c, left) =~= r@.push(c) + ancestry(
                            all,
                            p,
                            (left - 1) as nat,
                        ));
                    },
                    None => {
                        assert(r@ + ancestry(all, c, left) =~= r@.push(c));
                    },
                }
            }
            r.push(c);
            current = next;
        }
        if used == classes.len() {
            if let Some(c) = current {
                assert(r@ + ancestry(all, c, 0) =~= r@);
            }
            return r;
        }
        used = used + 1;
    }
    r
}

impl MergedFom {
    /// The model without any class.
    pub fn new() -> (r: Self)
        ensures
            r@ == (FomView {
                object_classes: Seq::empty(),
                attributes: Seq::empty(),
                interaction_classes: Seq::empty(),
                parameters: Seq::empty(),
                dimensions: Seq::empty(),
            }),
    {
        MergedFom {
            object_classes: Vec::new(),
            attributes: Vec::new(),
            interaction_classes: Vec::new(),
            parameters: Vec::new(),
            dimensions: Vec::new(),
        }
    }

    /// The definition of an object class.
    pub fn object_class_def(&self, h: ObjectClassHandle) -> (r: Option<&ClassDef>)
        ensures
            match r {
                Some(c) => class_with_handle(self@.object_classes, h) == Some(c@),
                None => class_with_handle(self@.object_classes, h) is None,
            },
    {
        find_class(&self.object_classes, h)
    }

    /// The handle of an object class.
    pub fn object_class_handle(&self, name: &str) -> (r: Option<ObjectClassHandle>)
        ensures
            r == handle_of_class(self@.object_classes, name@),
    {
        find_class_named(&self.object_classes, name)
    }

    /// The handle of an attribute as seen from an object class.
    pub fn attribute_handle(&self, class: ObjectClassHandle, name: &str) -> (r: Option<
        AttributeHandle,
    >)
        ensures
            r == handle_of_member(self@.attributes, class, name@),
    {
        find_member(&self.attributes, class, name)
    }

    /// The name of the attribute that a class declares under a handle.
    pub fn attribute_name<'a>(&'a self, class: &'a ClassDef, h: AttributeHandle) -> (r: Option<
        &'a String,
    >)
        ensures
            match r {
                Some(n) => member_named(class@.members, self@.attributes, class.handle, h) == Some(
                    n@,
                ),
                None => member_named(class@.members, self@.attributes, class.handle, h) is None,
            },
    {
        find_member_name(&class.members, &self.attributes, class.handle, h)
    }

    /// An object class and its ancestors, nearest first.
    pub fn inheritance_chain(&self, class: ObjectClassHandle) -> (r: Vec<ObjectClassHandle>)
        ensures
            r@ == chain(self@.object_classes, class),
    {
        list_ancestry(&self.object_classes, class)
    }

    /// The definition of an interaction class.
    pub fn interaction_class_def(&self, h: InteractionClassHandle) -> (r: Option<&ClassDef>)
        ensures
            match r {
                Some(c) => class_with_handle(self@.interaction_classes, h) == Some(c@),
                None => class_with_handle(self@.interaction_classes, h) is None,
            },
    {
        find_class(&self.interaction_classes, h)
    }

    /// The handle of an interaction class.
    pub fn interaction_class_handle(&self, name: &str) -> (r: Option<InteractionClassHandle>)
        ensures
            r == handle_of_class(self@.interaction_classes, name@),
    {
        find_class_named(&self.interaction_classes, name)
    }

    /// The handle of a parameter as seen from an interaction class.
    pub fn parameter_handle(&self, class: InteractionClassHandle, name: &str) -> (r: Option<
        ParameterHandle,
    >)
        ensures
            r == handle_of_member(self@.parameters, class, name@),
    {
        find_member(&self.parameters, class, name)
    }

    /// The name of the parameter that a class declares under a handle.
    pub fn parameter_name<'a>(&'a self, class: &'a ClassDef, h: ParameterHandle) -> (r: Option<
        &'a String,
    >)
        ensures
            match r {
                Some(n) => member_named(class@.members, self@.parameters, class.handle, h) == Some(
                    n@,
                ),
                None => member_named(class@.members, self@.parameters, class.handle, h) is None,
            },
    {
        find_member_name(&class.members, &self.parameters, class.handle, h)
    }

    /// An interaction class and its ancestors, nearest first.
    pub fn interaction_chain(&self, class: InteractionClassHandle) -> (r: Vec<
        InteractionClassHandle,
    >)
        ensures
            r@ == chain(self@.interaction_classes, class),
    {
        list_ancestry(&self.interaction_classes, class)
    }

    /// The handle of a dimension.
    pub fn dimension_handle(&self, name: &str) -> (r: Option<DimensionHandle>)
        ensures
            r == handle_of_dimension(self@.dimensions, name@),
    {
        let ghost all = self@.dimensions;
        let mut i: usize = 0;
        assert(all.skip(0) =~= all);
        while i < self.dimensions.len()
            invariant
                i <= self.dimensions@.len(),
                all == self@.dimensions,
                handle_of_dimension(all, name@) == handle_of_dimension(all.skip(i as int), name@),
            decreases self.dimensions@.len() - i,
        {
            assert(all.skip(i as int).skip(1) =~= all.skip(i + 1));
            if same_text(self.dimensions[i].name.as_str(), name) {
                return Some(self.dimensions[i].handle);
            }
            i = i + 1;
        }
        None
    }
}

} // verus!
