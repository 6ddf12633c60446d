//! Classes, members and dimensions of an object model.

use crate::dispatch::calls::{lookup_reply, member_outcome};
use crate::dispatch::helpers::Outcome;
use crate::dispatch::restore::SnapshotLoadView;
use crate::exception::HlaException;
use crate::federation::FederationView;
use crate::fom::{
    ancestry, chain, class_with_handle, handle_of_class, handle_of_dimension, handle_of_member,
    member_named, parent_of, ClassView, DimensionView, MemberView,
};
use crate::handles::{bytes_of_u32, field32};
use crate::laws::refuses;
use crate::messages::{CallRequest, PayloadView, ResponseView, Service};
use vstd::prelude::*;

verus! {

/// Whether a class with a handle is among those of a model.
pub open spec fn defines(classes: Seq<ClassView>, h: u32) -> bool {
    exists|i: int| 0 <= i < classes.len() && (#[trigger] classes[i]).handle == h
}

/// Whether a class is the first one with a handle among those of a model.
pub open spec fn first_with_handle(classes: Seq<ClassView>, h: u32, i: int) -> bool {
    &&& 0 <= i < classes.len()
    &&& classes[i].handle == h
    &&& forall|j: int| 0 <= j < i ==> (#[trigger] classes[j]).handle != h
}

/// Whether a class is the first one with a name among those of a model.
pub open spec fn first_with_name(classes: Seq<ClassView>, name: Seq<char>, i: int) -> bool {
    &&& 0 <= i < classes.len()
    &&& classes[i].name == name
    &&& forall|j: int| 0 <= j < i ==> (#[trigger] classes[j]).name != name
}

/// Whether a class with a name is among those of a model.
pub open spec fn has_class(classes: Seq<ClassView>, name: Seq<char>) -> bool {
    exists|i: int| 0 <= i < classes.len() && (#[trigger] classes[i]).name == name
}

/// Whether a member is the first one of a class with a name.
pub open spec fn first_member(
    members: Seq<MemberView>,
    class: u32,
    name: Seq<char>,
    i: int,
) -> bool {
    &&& 0 <= i < members.len()
    &&& members[i].class == class
    &&& members[i].name == name
    &&& forall|j: int|
        0 <= j < i ==> !((#[trigger] members[j]).class == class && members[j].name == name)
}

/// Whether a class has a member with a name.
pub open spec fn has_member(members: Seq<MemberView>, class: u32, name: Seq<char>) -> bool {
    exists|i: int|
        0 <= i < members.len() && (#[trigger] members[i]).class == class && members[i].name == name
}

pub(crate) proof fn lemma_defines(classes: Seq<ClassView>, h: u32)
    ensures
        class_with_handle(classes, h) is Some <==> defines(classes, h),
        class_with_handle(classes, h) matches Some(c) ==> exists|i: int| #[trigger]
            first_with_handle(classes, h, i) && classes[i] == c,
    decreases classes.len(),
{
    if classes.len() > 0 {
        let rest = classes.skip(1);
        if classes[0].handle == h {
            assert(first_with_handle(classes, h, 0));
        } else {
            lemma_defines(rest, h);
            if class_with_handle(rest, h) is Some {
                let i = choose|i: int| #[trigger]
                    first_with_handle(rest, h, i) && rest[i] == class_with_handle(rest, h)->0;
                assert(rest[i] == classes[i + 1]);
                assert forall|j: int| 0 <= j < i + 1 implies (#[trigger] classes[j]).handle != h by {
                    if j > 0 {
                        assert(rest[j - 1] == classes[j]);
                    }
                }
                assert(first_with_handle(classes, h, i + 1));
            }
            if defines(classes, h) {
                let i = choose|i: int|
                    0 <= i < classes.len() && (#[trigger] classes[i]).handle == h;
                assert(rest[i - 1].handle == h);
            }
        }
    }
}

proof fn lemma_has_class(classes: Seq<ClassView>, name: Seq<char>)
    ensures
        handle_of_class(classes, name) is Some <==> has_class(classes, name),
        handle_of_class(classes, name) matches Some(h) ==> exists|i: int| #[trigger]
            first_with_name(classes, name, i) && classes[i].handle == h,
    decreases classes.len(),
{
    if classes.len() > 0 {
        let rest = classes.skip(1);
        if classes[0].name == name {
            assert(first_with_name(classes, name, 0));
        } else {
            lemma_has_class(rest, name);
            if handle_of_class(rest, name) is Some {
                let i = choose|i: int| #[trigger]
                    first_with_name(rest, name, i) && rest[i].handle == handle_of_class(
                        rest,
                        name,
                    )->0;
                assert(rest[i] == classes[i + 1]);
                assert forall|j: int| 0 <= j < i + 1 implies (#[trigger] classes[j]).name != name by {
                    if j > 0 {
                        assert(rest[j - 1] == classes[j]);
                    }
                }
                assert(first_with_name(classes, name, i + 1));
            }
            if has_class(classes, name) {
                let i = choose|i: int|
                    0 <= i < classes.len() && (#[trigger] classes[i]).name == name;
                assert(rest[i - 1].name == name);
            }
        }
    }
}

proof fn lemma_has_member(members: Seq<MemberView>, class: u32, name: Seq<char>)
    ensures
        handle_of_member(members, class, name) is Some <==> has_member(members, class, name),
        handle_of_member(members, class, name) matches Some(h) ==> exists|i: int| #[trigger]
            first_member(members, class, name, i) && members[i].handle == h,
    decreases members.len(),
{
    if members.len() > 0 {
        let rest = members.skip(1);
        if members[0].class == class && members[0].name == name {
            assert(first_member(members, class, name, 0));
        } else {
            lemma_has_member(rest, class, name);
            if handle_of_member(rest, class, name) is Some {
                let i = choose|i: int| #[trigger]
                    first_member(rest, class, name, i) && rest[i].handle == handle_of_member(
                        rest,
                        class,
                        name,
                    )->0;
                assert(rest[i] == members[i + 1]);
                assert forall|j: int| 0 <= j < i + 1 implies !((#[trigger] members[j]).class
                    == class && members[j].name == name) by {
                    if j > 0 {
                        assert(rest[j - 1] == members[j]);
                    }
                }
                assert(first_member(members, class, name, i + 1));
            }
            if has_member(members, class, name) {
                let i = choose|i: int|
                    0 <= i < members.len() && (#[trigger] members[i]).class == class
                        && members[i].name == name;
                assert(rest[i - 1] == members[i]);
            }
        }
    }
}

/// Whether a class of a model derives directly from another one, by the name of its
/// parent.
pub open spec fn derives_from(classes: Seq<ClassView>, h: u32, p: u32) -> bool {
    exists|i: int, j: int| #[trigger]
        first_with_handle(classes, h, i) && classes[i].parent is Some && #[trigger] first_with_name(
            classes,
            classes[i].parent->0,
            j,
        ) && classes[j].handle == p
}

proof fn lemma_parent(classes: Seq<ClassView>, h: u32)
    ensures
        parent_of(classes, h) matches Some(p) ==> derives_from(classes, h, p),
        parent_of(classes, h) is None ==> forall|p: u32| !derives_from(classes, h, p),
{
    lemma_defines(classes, h);
    if let Some(c) = class_with_handle(classes, h) {
        let i = choose|i: int| #[trigger] first_with_handle(classes, h, i) && classes[i] == c;
        if let Some(name) = c.parent {
            lemma_has_class(classes, name);
            if handle_of_class(classes, name) is Some {
                let j = choose|j: int| #[trigger]
                    first_with_name(classes, name, j) && classes[j].handle == handle_of_class(
                        classes,
                        name,
                    )->0;
                assert(derives_from(classes, h, classes[j].handle));
            }
        }
        assert forall|k: int| first_with_handle(classes, h, k) implies k == i by {}
    }
    if parent_of(classes, h) is None {
        assert forall|p: u32| !derives_from(classes, h, p) by {
            if derives_from(classes, h, p) {
                let (i, j) = choose|i: int, j: int| #[trigger]
                    first_with_handle(classes, h, i) && classes[i].parent is Some && #[trigger]
                    first_with_name(classes, classes[i].parent->0, j) && classes[j].handle == p;
                assert(defines(classes, h));
                let k = choose|k: int| #[trigger]
                    first_with_handle(classes, h, k) && classes[k] == class_with_handle(
                        classes,
                        h,
                    )->0;
                assert(k == i);
                assert(has_class(classes, classes[i].parent->0));
            }
        }
    }
}

proof fn lemma_ancestry(classes: Seq<ClassView>, h: u32, links: nat)
    ensures
        ({
            let q = ancestry(classes, h, links);
            &&& links > 0 ==> q.len() > 0 && q[0] == h
            &&& q.len() <= links
            &&& forall|i: int|
                0 <= i < q.len() - 1 ==> derives_from(classes, #[trigger] q[i], q[i + 1])
            &&& 0 < q.len() < links ==> forall|p: u32| !derives_from(classes, q.last(), p)
        }),
    decreases links,
{
    if links > 0 {
        lemma_parent(classes, h);
        let q = ancestry(classes, h, links);
        if let Some(p) = parent_of(classes, h) {
            let rest = ancestry(classes, p, (links - 1) as nat);
            lemma_ancestry(classes, p, (links - 1) as nat);
            assert(q =~= seq![h] + rest);
            assert forall|i: int| 0 <= i < q.len() - 1 implies derives_from(
                classes,
                #[trigger] q[i],
                q[i + 1],
            ) by {
                if i > 0 {
                    assert(q[i] == rest[i - 1] && q[i + 1] == rest[i]);
                } else {
                    assert(q[1] == rest[0]);
                }
            }
            if 0 < q.len() < links {
                assert(q.last() == rest.last());
            }
        }
    }
}

/// The line of a class begins with the class itself, goes from each class to the one that
/// it derives from, and does not stop before there is none, or before it has taken a step
/// for every class of the model.
pub proof fn a_line_goes_up_to_the_root(classes: Seq<ClassView>, h: u32)
    ensures
        ({
            let q = chain(classes, h);
            &&& q.len() > 0
            &&& q[0] == h
            &&& forall|i: int|
                0 <= i < q.len() - 1 ==> derives_from(classes, #[trigger] q[i], q[i + 1])
            &&& q.len() == classes.len() + 1 || (forall|p: u32|
                !derives_from(classes, q.last(), p))
            &&& q.len() <= classes.len() + 1
        }),
{
    lemma_ancestry(classes, h, classes.len() + 1);
}

/// Whether a request is answered with a payload, and changes nothing.
pub open spec fn answers(
    o: Outcome,
    fed: FederationView,
    service: Service,
    payload: PayloadView,
) -> bool {
    &&& o.reply == (ResponseView::Reply { service, payload })
    &&& o.fed == fed
    &&& o.sent.len() == 0
}

/// The handle of a class is that of the first class with the name, of object classes and
/// of interaction classes alike.
pub proof fn classes_are_found_by_name(
    fed: FederationView,
    conns: Map<u64, u64>,
    me: u32,
    name: String,
    load: SnapshotLoadView,
    i: int,
)
    ensures
        ({
            let request = CallRequest::GetObjectClassHandle { object_class_name: name };
            let o = member_outcome(fed, conns, me, request, load);
            let classes = fed.fom.object_classes;
            &&& !has_class(classes, name@) ==> refuses(o, fed, HlaException::NameNotFound)
            &&& first_with_name(classes, name@, i) ==> answers(
                o,
                fed,
                Service::GetObjectClassHandle,
                PayloadView::Handle(bytes_of_u32(classes[i].handle)),
            )
        }),
        ({
            let request = CallRequest::GetInteractionClassHandle { interaction_class_name: name };
            let o = member_outcome(fed, conns, me, request, load);
            let classes = fed.fom.interaction_classes;
            &&& !has_class(classes, name@) ==> refuses(o, fed, HlaException::NameNotFound)
            &&& first_with_name(classes, name@, i) ==> answers(
                o,
                fed,
                Service::GetInteractionClassHandle,
                PayloadView::Handle(bytes_of_u32(classes[i].handle)),
            )
        }),
{
    reveal(lookup_reply);
    lemma_has_class(fed.fom.object_classes, name@);
    lemma_has_class(fed.fom.interaction_classes, name@);
    if first_with_name(fed.fom.object_classes, name@, i) {
        assert(has_class(fed.fom.object_classes, name@));
    }
    if first_with_name(fed.fom.interaction_classes, name@, i) {
        assert(has_class(fed.fom.interaction_classes, name@));
    }
}

/// The name of a class is that of the first class with the handle, of object classes and
/// of interaction classes alike.
pub proof fn classes_are_named_by_handle(
    fed: FederationView,
    conns: Map<u64, u64>,
    me: u32,
    field: Option<Vec<u8>>,
    load: SnapshotLoadView,
    h: u32,
    i: int,
)
    requires
        field32(field) == Some(h),
    ensures
        ({
            let request = CallRequest::GetObjectClassName { object_class: field };
            let o = member_outcome(fed, conns, me, request, load);
            let classes = fed.fom.object_classes;
            &&& !defines(classes, h) ==> refuses(o, fed, HlaException::InvalidObjectClassHandle)
            &&& first_with_handle(classes, h, i) ==> answers(
                o,
                fed,
                Service::GetObjectClassName,
                PayloadView::Text(classes[i].name),
            )
        }),
        ({
            let request = CallRequest::GetInteractionClassName { interaction_class: field };
            let o = member_outcome(fed, conns, me, request, load);
            let classes = fed.fom.interaction_classes;
            &&& !defines(classes, h) ==> refuses(
                o,
                fed,
                HlaException::InvalidInteractionClassHandle,
            )
            &&& first_with_handle(classes, h, i) ==> answers(
                o,
                fed,
                Service::GetInteractionClassName,
                PayloadView::Text(classes[i].name),
            )
        }),
{
    reveal(lookup_reply);
    lemma_defines(fed.fom.object_classes, h);
    lemma_defines(fed.fom.interaction_classes, h);
    if first_with_handle(fed.fom.object_classes, h, i) {
        assert(defines(fed.fom.object_classes, h));
    }
    if first_with_handle(fed.fom.interaction_classes, h, i) {
        assert(defines(fed.fom.interaction_classes, h));
    }
}

/// The handle of an attribute is that of the first attribute of the class with the name,
/// and the handle of a parameter likewise.
pub proof fn members_are_found_by_name(
    fed: FederationView,
    conns: Map<u64, u64>,
    me: u32,
    field: Option<Vec<u8>>,
    name: String,
    load: SnapshotLoadView,
    c: u32,
    i: int,
)
    requires
        field32(field) == Some(c),
    ensures
        ({
            let request = CallRequest::GetAttributeHandle {
                object_class: field,
                attribute_name: name,
            };
            let o = member_outcome(fed, conns, me, request, load);
            let known = defines(fed.fom.object_classes, c);
            let members = fed.fom.attributes;
            &&& !known ==> refuses(o, fed, HlaException::InvalidObjectClassHandle)
            &&& known && !has_member(members, c, name@) ==> refuses(
                o,
                fed,
                HlaException::NameNotFound,
            )
            &&& known && first_member(members, c, name@, i) ==> answers(
                o,
                fed,
                Service::GetAttributeHandle,
                PayloadView::Handle(bytes_of_u32(members[i].handle)),
            )
        }),
        ({
            let request = CallRequest::GetParameterHandle {
                interaction_class: field,
                parameter_name: name,
            };
            let o = member_outcome(fed, conns, me, request, load);
            let known = defines(fed.fom.interaction_classes, c);
            let members = fed.fom.parameters;
            &&& !known ==> refuses(o, fed, HlaException::InvalidInteractionClassHandle)
            &&& known && !has_member(members, c, name@) ==> refuses(
                o,
                fed,
                HlaException::NameNotFound,
            )
            &&& known && first_member(members, c, name@, i) ==> answers(
                o,
                fed,
                Service::GetParameterHandle,
                PayloadView::Handle(bytes_of_u32(members[i].handle)),
            )
        }),
{
    reveal(lookup_reply);
    lemma_defines(fed.fom.object_classes, c);
    lemma_defines(fed.fom.interaction_classes, c);
    lemma_has_member(fed.fom.attributes, c, name@);
    lemma_has_member(fed.fom.parameters, c, name@);
    if first_member(fed.fom.attributes, c, name@, i) {
        assert(has_member(fed.fom.attributes, c, name@));
    }
    if first_member(fed.fom.parameters, c, name@, i) {
        assert(has_member(fed.fom.parameters, c, name@));
    }
}

/// Whether a name of a class leads to a member with a handle.
pub open spec fn leads_to(members: Seq<MemberView>, class: u32, name: Seq<char>, h: u32) -> bool {
    exists|i: int| #[trigger]
        first_member(members, class, name, i) && members[i].handle == h
}

/// Whether a name is the first of a list that leads to a member with a handle.
pub open spec fn first_leading(
    names: Seq<Seq<char>>,
    members: Seq<MemberView>,
    class: u32,
    h: u32,
    k: int,
) -> bool {
    &&& 0 <= k < names.len()
    &&& leads_to(members, class, names[k], h)
    &&& forall|j: int| 0 <= j < k ==> !leads_to(members, class, #[trigger] names[j], h)
}

proof fn lemma_leads_to(members: Seq<MemberView>, class: u32, name: Seq<char>, h: u32)
    ensures
        handle_of_member(members, class, name) == Some(h) <==> leads_to(members, class, name, h),
{
    lemma_has_member(members, class, name);
    if leads_to(members, class, name, h) {
        let i = choose|i: int| #[trigger]
            first_member(members, class, name, i) && members[i].handle == h;
        assert(has_member(members, class, name));
        let k = choose|k: int| #[trigger]
            first_member(members, class, name, k) && members[k].handle == handle_of_member(
                members,
                class,
                name,
            )->0;
        assert(i == k);
    }
}

proof fn lemma_member_named(
    names: Seq<Seq<char>>,
    members: Seq<MemberView>,
    class: u32,
    h: u32,
)
    ensures
        member_named(names, members, class, h) matches Some(n) ==> exists|k: int| #[trigger]
            first_leading(names, members, class, h, k) && names[k] == n,
        member_named(names, members, class, h) is None ==> forall|k: int|
            0 <= k < names.len() ==> !leads_to(members, class, #[trigger] names[k], h),
    decreases names.len(),
{
    if names.len() > 0 {
        let rest = names.skip(1);
        lemma_leads_to(members, class, names[0], h);
        if leads_to(members, class, names[0], h) {
            assert(first_leading(names, members, class, h, 0));
        } else {
            lemma_member_named(rest, members, class, h);
            if member_named(rest, members, class, h) is Some {
                let k = choose|k: int| #[trigger]
                    first_leading(rest, members, class, h, k) && rest[k] == member_named(
                        rest,
                        members,
                        class,
                        h,
                    )->0;
                assert forall|j: int| 0 <= j < k + 1 implies !leads_to(
                    members,
                    class,
                    #[trigger] names[j],
                    h,
                ) by {
                    if j > 0 {
                        assert(rest[j - 1] == names[j]);
                    }
                }
                assert(rest[k] == names[k + 1]);
                assert(first_leading(names, members, class, h, k + 1));
            } else {
                assert forall|k: int| 0 <= k < names.len() implies !leads_to(
                    members,
                    class,
                    #[trigger] names[k],
                    h,
                ) by {
                    if k > 0 {
                        assert(rest[k - 1] == names[k]);
                    }
                }
            }
        }
    }
}

/// The name of an attribute is the first among those of its class that leads to its
/// handle, and the name of a parameter likewise.
pub proof fn members_are_named_by_handle(
    fed: FederationView,
    conns: Map<u64, u64>,
    me: u32,
    class_field: Option<Vec<u8>>,
    field: Option<Vec<u8>>,
    load: SnapshotLoadView,
    c: u32,
    h: u32,
    i: int,
    k: int,
)
    requires
        field32(class_field) == Some(c),
        field32(field) == Some(h),
    ensures
        ({
            let request = CallRequest::GetAttributeName {
                object_class: class_field,
                attribute: field,
            };
            let o = member_outcome(fed, conns, me, request, load);
            let classes = fed.fom.object_classes;
            &&& !defines(classes, c) ==> refuses(o, fed, HlaException::InvalidObjectClassHandle)
            &&& first_with_handle(classes, c, i) ==> {
                &&& first_leading(classes[i].members, fed.fom.attributes, c, h, k) ==> answers(
                    o,
                    fed,
                    Service::GetAttributeName,
                    PayloadView::Text(classes[i].members[k]),
                )
                &&& (forall|j: int|
                    0 <= j < classes[i].members.len() ==> !leads_to(
                        fed.fom.attributes,
                        c,
                        #[trigger] classes[i].members[j],
                        h,
                    )) ==> refuses(o, fed, HlaException::AttributeNotDefined)
            }
        }),
        ({
            let request = CallRequest::GetParameterName {
                interaction_class: class_field,
                parameter: field,
            };
            let o = member_outcome(fed, conns, me, request, load);
            let classes = fed.fom.interaction_classes;
            &&& !defines(classes, c) ==> refuses(
                o,
                fed,
                HlaException::InvalidInteractionClassHandle,
            )
            &&& first_with_handle(classes, c, i) ==> {
                &&& first_leading(classes[i].members, fed.fom.parameters, c, h, k) ==> answers(
                    o,
                    fed,
                    Service::GetParameterName,
                    PayloadView::Text(classes[i].members[k]),
                )
                &&& (forall|j: int|
                    0 <= j < classes[i].members.len() ==> !leads_to(
                        fed.fom.parameters,
                        c,
                        #[trigger] classes[i].members[j],
                        h,
                    )) ==> refuses(o, fed, HlaException::InteractionParameterNotDefined)
            }
        }),
{
    reveal(lookup_reply);
    lemma_defines(fed.fom.object_classes, c);
    lemma_defines(fed.fom.interaction_classes, c);
    if first_with_handle(fed.fom.object_classes, c, i) {
        assert(defines(fed.fom.object_classes, c));
        lemma_member_named(fed.fom.object_classes[i].members, fed.fom.attributes, c, h);
    }
    if first_with_handle(fed.fom.interaction_classes, c, i) {
        assert(defines(fed.fom.interaction_classes, c));
        lemma_member_named(fed.fom.interaction_classes[i].members, fed.fom.parameters, c, h);
    }
}

/// Whether a dimension is the first one with a name.
pub open spec fn first_dimension(dimensions: Seq<DimensionView>, name: Seq<char>, i: int) -> bool {
    &&& 0 <= i < dimensions.len()
    &&& dimensions[i].name == name
    &&& forall|j: int| 0 <= j < i ==> (#[trigger] dimensions[j]).name != name
}

proof fn lemma_dimension(dimensions: Seq<DimensionView>, name: Seq<char>)
    ensures
        handle_of_dimension(dimensions, name) matches Some(h) ==> exists|i: int| #[trigger]
            first_dimension(dimensions, name, i) && dimensions[i].handle == h,
        handle_of_dimension(dimensions, name) is None ==> forall|i: int|
            0 <= i < dimensions.len() ==> (#[trigger] dimensions[i]).name != name,
    decreases dimensions.len(),
{
    if dimensions.len() > 0 {
        let rest = dimensions.skip(1);
        if dimensions[0].name == name {
            assert(first_dimension(dimensions, name, 0));
        } else {
            lemma_dimension(rest, name);
            if handle_of_dimension(rest, name) is Some {
                let i = choose|i: int| #[trigger]
                    first_dimension(rest, name, i) && rest[i].handle == handle_of_dimension(
                        rest,
                        name,
                    )->0;
                assert forall|j: int| 0 <= j < i + 1 implies (#[trigger] dimensions[j]).name
                    != name by {
                    if j > 0 {
                        assert(rest[j - 1] == dimensions[j]);
                    }
                }
                assert(rest[i] == dimensions[i + 1]);
                assert(first_dimension(dimensions, name, i + 1));
            } else {
                assert forall|i: int| 0 <= i < dimensions.len() implies (
                #[trigger] dimensions[i]).name != name by {
                    if i > 0 {
                        assert(rest[i - 1] == dimensions[i]);
                    }
                }
            }
        }
    }
}

/// The handle of a dimension is that of the first dimension with the name.
pub proof fn dimensions_are_found_by_name(
    fed: FederationView,
    conns: Map<u64, u64>,
    me: u32,
    name: String,
    load: SnapshotLoadView,
    i: int,
)
    ensures
        ({
            let request = CallRequest::GetDimensionHandle { dimension_name: name };
            let o = member_outcome(fed, conns, me, request, load);
            let dimensions = fed.fom.dimensions;
            &&& first_dimension(dimensions, name@, i) ==> answers(
                o,
                fed,
                Service::GetDimensionHandle,
                PayloadView::Handle(bytes_of_u32(dimensions[i].handle)),
            )
            &&& (forall|j: int|
                0 <= j < dimensions.len() ==> (#[trigger] dimensions[j]).name != name@) ==> refuses(
                o,
                fed,
                HlaException::NameNotFound,
            )
        }),
{
    reveal(lookup_reply);
    lemma_dimension(fed.fom.dimensions, name@);
}

} // verus!
