use vstd::prelude::*;

use crate::type_tag::{
    all_types, all_types_spec, builtin_methods, callable_types, callable_types_spec, descriptor_types_spec,
    descriptors, lemma_every_tag_registered, method_types_spec, registered_tags, TypeTag,
};

verus! {

/// What a class attribute is.
#[derive(Clone, Copy, Debug, PartialEq, Eq, Structural)]
pub enum MemberKind {
    /// A builtin method.
    Method,
    /// A read-only attribute-access object.
    Descriptor,
    /// A writable attribute-access object.
    DataDescriptor,
}

/// A builtin method or descriptor that a type's implementation offers, by name.
pub struct Member {
    pub owner: TypeTag,
    pub kind: MemberKind,
    pub name: String,
}

/// An entry of a class's attribute table.
#[derive(Debug, PartialEq)]
pub struct Attribute {
    pub name: String,
    pub kind: MemberKind,
}

/// Whether the class of `tag` takes its own members of this kind: `Object` takes all of them,
/// `Type` its methods and descriptors, and every other type its methods or its descriptors
/// where it is listed for them.
pub open spec fn attaches(tag: TypeTag, kind: MemberKind) -> bool {
    if tag == TypeTag::Object {
        true
    } else if tag == TypeTag::Type {
        kind != MemberKind::DataDescriptor
    } else {
        (kind == MemberKind::Method && method_types_spec().contains(tag)) || (kind
            == MemberKind::Descriptor && descriptor_types_spec().contains(tag))
    }
}

/// `attrs` with `name` bound to `kind`: an entry of that name is replaced in place, else one is
/// added at the end.
pub open spec fn set_attribute(attrs: Seq<(Seq<char>, MemberKind)>, name: Seq<char>, kind: MemberKind) -> Seq<(Seq<char>, MemberKind)> {
    if exists|i: int| 0 <= i < attrs.len() && attrs[i].0 == name {
        attrs.update(choose|i: int| 0 <= i < attrs.len() && attrs[i].0 == name, (name, kind))
    } else {
        attrs.push((name, kind))
    }
}

/// The names of an attribute table are pairwise distinct.
pub open spec fn distinct_names(attrs: Seq<(Seq<char>, MemberKind)>) -> bool {
    forall|i: int, j: int| 0 <= i < j < attrs.len() ==> attrs[i].0 != attrs[j].0
}

/// The attribute table, as name and kind, that the class of `tag` gets from the first `n`
/// members: one entry per name, a later member replacing an earlier one of the same name.
pub open spec fn class_attributes(members: Seq<Member>, tag: TypeTag, n: int) -> Seq<(Seq<char>, MemberKind)>
    decreases n,
{
    if n <= 0 {
        Seq::empty()
    } else {
        let prev = class_attributes(members, tag, n - 1);
        let m = members[n - 1];
        if m.owner == tag && attaches(tag, m.kind) {
            set_attribute(prev, m.name@, m.kind)
        } else {
            prev
        }
    }
}

pub open spec fn attribute_view(attrs: Seq<Attribute>) -> Seq<(Seq<char>, MemberKind)> {
    attrs.map_values(|a: Attribute| (a.name@, a.kind))
}

/// The runtime class of a builtin type. Classes live in a [`TypeRegistry`] and refer to one
/// another by tag, so the cycle between `Type` and `Object` needs no half-built class.
pub struct Class {
    pub type_tag: TypeTag,
    /// The class whose instance this class is.
    pub metaclass: TypeTag,
    /// Parent classes, in resolution order.
    pub parents: Vec<TypeTag>,
    /// Builtin methods and descriptors, in the order they were attached.
    pub attributes: Vec<Attribute>,
}

/// The parents every builtin class has: none for `Object`, `[Object]` for every other one.
pub open spec fn builtin_parents(tag: TypeTag) -> Seq<TypeTag> {
    if tag == TypeTag::Object {
        Seq::empty()
    } else {
        seq![TypeTag::Object]
    }
}

/// Whether `c` is the correctly wired builtin class for `tag`.
pub open spec fn is_builtin_class(c: Class, tag: TypeTag) -> bool {
    &&& c.type_tag == tag
    &&& c.metaclass == TypeTag::Type
    &&& c.parents@ == builtin_parents(tag)
}

fn tag_in(tags: &Vec<TypeTag>, tag: TypeTag) -> (r: bool)
    ensures
        r == tags@.contains(tag),
{
    let mut i: usize = 0;
    while i < tags.len()
        invariant
            0 <= i <= tags@.len(),
            forall|j: int| 0 <= j < i ==> tags@[j] != tag,
        decreases tags@.len() - i,
    {
        if tags[i] == tag {
            return true;
        }
        i = i + 1;
    }
    false
}

/// The attributes that the class of `tag` takes from `members`.
fn members_for(tag: TypeTag, members: &Vec<Member>) -> (r: Vec<Attribute>)
    ensures
        attribute_view(r@) == class_attributes(members@, tag, members@.len() as int),
{
    let method_types = builtin_methods();
    let descriptor_types = descriptors();
    let mut out: Vec<Attribute> = Vec::new();
    let mut i: usize = 0;
    while i < members.len()
        invariant
            method_types@ == method_types_spec(),
            descriptor_types@ == descriptor_types_spec(),
            0 <= i <= members@.len(),
            attribute_view(out@) == class_attributes(members@, tag, i as int),
            distinct_names(attribute_view(out@)),
        decreases members@.len() - i,
    {
        let m = &members[i];
        let takes = if tag == TypeTag::Object {
            true
        } else if tag == TypeTag::Type {
            m.kind != MemberKind::DataDescriptor
        } else {
            (m.kind == MemberKind::Method && tag_in(&method_types, tag)) || (m.kind
                == MemberKind::Descriptor && tag_in(&descriptor_types, tag))
        };
        if m.owner == tag && takes {
            let ghost prev = attribute_view(out@);
            let mut j: usize = 0;
            let mut found = false;
            while j < out.len()
                invariant_except_break
                    !found,
                invariant
                    0 <= j <= out@.len(),
                    prev == attribute_view(out@),
                    forall|q: int| 0 <= q < j ==> out@[q].name@ != m.name@,
                ensures
                    0 <= j <= out@.len(),
                    forall|q: int| 0 <= q < j ==> out@[q].name@ != m.name@,
                    found ==> j < out@.len() && out@[j as int].name@ == m.name@,
                    !found ==> j == out@.len(),
                decreases out@.len() - j,
            {
                if out[j].name == m.name {
                    found = true;
                    break;
                }
                j = j + 1;
            }
            let entry = Attribute { name: m.name.clone(), kind: m.kind };
            if found {
                out.set(j, entry);
                proof {
                    assert(prev[j as int].0 == m.name@);
                    let c = choose|q: int| 0 <= q < prev.len() && prev[q].0 == m.name@;
                    assert(c == j as int);
                    assert(attribute_view(out@) =~= set_attribute(prev, m.name@, m.kind));
                    assert forall|a: int, b: int| 0 <= a < b < attribute_view(out@).len() implies attribute_view(out@)[a].0
                        != attribute_view(out@)[b].0 by {
                        assert(attribute_view(out@)[a].0 == prev[a].0);
                        assert(attribute_view(out@)[b].0 == prev[b].0);
                    }
                }
            } else {
                out.push(entry);
                proof {
                    assert(!(exists|q: int| 0 <= q < prev.len() && prev[q].0 == m.name@)) by {
                        if exists|q: int| 0 <= q < prev.len() && prev[q].0 == m.name@ {
                            let q = choose|q: int| 0 <= q < prev.len() && prev[q].0 == m.name@;
                            assert(out@[q].name@ == prev[q].0);
                        }
                    }
                    assert(attribute_view(out@) =~= set_attribute(prev, m.name@, m.kind));
                    assert forall|a: int, b: int| 0 <= a < b < attribute_view(out@).len() implies attribute_view(out@)[a].0
                        != attribute_view(out@)[b].0 by {
                        assert(attribute_view(out@)[a].0 == out@[a].name@);
                        if b < prev.len() {
                            assert(attribute_view(out@)[b].0 == prev[b].0);
                        } else {
                            assert(out@[a].name@ == prev[a].0);
                        }
                    }
                }
            }
        }
        proof {
            assert(attribute_view(out@) =~= class_attributes(members@, tag, i as int + 1));
        }
        i = i + 1;
    }
    out
}

/// Builds the class of `tag`, with metaclass `Type`, parents `[Object]` but for `Object` itself,
/// and the attributes it takes from `members`.
fn builtin_class(tag: TypeTag, members: &Vec<Member>) -> (r: Class)
    ensures
        is_builtin_class(r, tag),
        attribute_view(r.attributes@) == class_attributes(members@, tag, members@.len() as int),
{
    let parents: Vec<TypeTag> = if tag == TypeTag::Object {
        Vec::new()
    } else {
        vec![TypeTag::Object]
    };
    assert(parents@ =~= builtin_parents(tag));
    Class { type_tag: tag, metaclass: TypeTag::Type, parents, attributes: members_for(tag, members) }
}

/// The `Type` class: the metaclass of every class, itself included, and a subclass of `Object`.
pub fn type_class(members: &Vec<Member>) -> (r: Class)
    ensures
        is_builtin_class(r, TypeTag::Type),
        attribute_view(r.attributes@) == class_attributes(members@, TypeTag::Type, members@.len() as int),
{
    builtin_class(TypeTag::Type, members)
}

/// The `Object` class: the root of every class hierarchy, with `Type` as its metaclass.
pub fn object_class(members: &Vec<Member>) -> (r: Class)
    ensures
        is_builtin_class(r, TypeTag::Object),
        attribute_view(r.attributes@) == class_attributes(members@, TypeTag::Object, members@.len() as int),
{
    builtin_class(TypeTag::Object, members)
}

/// Whether each class of `classes` is the one for the registered tag at its place, with the
/// attributes it takes from `members`.
pub open spec fn classes_built(classes: Seq<Class>, members: Seq<Member>, n: int) -> bool {
    forall|i: int|
        0 <= i < n ==> is_builtin_class(#[trigger] classes[i], registered_tags()[i]) && attribute_view(
            classes[i].attributes@,
        ) == class_attributes(members, registered_tags()[i], members.len() as int)
}

/// Builds the class of every builtin type, in the order of [`registered_tags`].
pub fn init_type_classes(members: &Vec<Member>) -> (r: Vec<Class>)
    ensures
        r@.len() == registered_tags().len(),
        classes_built(r@, members@, r@.len() as int),
{
    let mut classes: Vec<Class> = Vec::new();
    classes.push(type_class(members));
    classes.push(object_class(members));
    let tags = all_types();
    let mut i: usize = 0;
    while i < tags.len()
        invariant
            tags@ == all_types_spec(),
            0 <= i <= tags@.len(),
            classes@.len() == i + 2,
            classes_built(classes@, members@, classes@.len() as int),
        decreases tags@.len() - i,
    {
        let tag = tags[i];
        assert(registered_tags()[i + 2] == all_types_spec()[i as int]);
        classes.push(builtin_class(tag, members));
        i = i + 1;
    }
    classes
}

/// One class for each builtin type, addressed by its tag.
pub struct TypeRegistry {
    type_classes: Vec<Class>,
}

impl TypeRegistry {
    /// The classes, in the order of [`registered_tags`].
    pub closed spec fn classes(&self) -> Seq<Class> {
        self.type_classes@
    }

    /// The class that the registry holds for `tag`.
    pub open spec fn class_for(&self, tag: TypeTag) -> Class {
        self.classes()[registered_tags().index_of(tag)]
    }

    pub open spec fn wf(&self) -> bool {
        &&& self.classes().len() == registered_tags().len()
        &&& forall|i: int|
            0 <= i < self.classes().len() ==> is_builtin_class(
                #[trigger] self.classes()[i],
                registered_tags()[i],
            )
    }

    /// Whether every class holds the attributes it takes from `members`.
    pub open spec fn built_from(&self, members: Seq<Member>) -> bool {
        classes_built(self.classes(), members, self.classes().len() as int)
    }

    /// Bootstraps every builtin class, attaching to each the builtin methods and descriptors of
    /// `members` that it takes.
    pub fn new(members: &Vec<Member>) -> (r: Self)
        ensures
            r.wf(),
            r.built_from(members@),
    {
        TypeRegistry { type_classes: init_type_classes(members) }
    }

    /// The singleton class of `tag`.
    pub fn get_type_class(&self, tag: TypeTag) -> (r: &Class)
        requires
            self.wf(),
        ensures
            is_builtin_class(*r, tag),
            *r == self.class_for(tag),
    {
        proof {
            lemma_every_tag_registered(tag);
            registered_tags().index_of_first_ensures(tag);
        }
        let mut i: usize = 0;
        while i < self.type_classes.len()
            invariant
                self.wf(),
                0 <= i <= self.type_classes@.len(),
                registered_tags().contains(tag),
                forall|j: int| 0 <= j < i ==> registered_tags()[j] != tag,
            decreases self.type_classes@.len() - i,
        {
            if self.type_classes[i].type_tag == tag {
                proof {
                    assert(is_builtin_class(self.classes()[i as int], registered_tags()[i as int]));
                    registered_tags().index_of_first_ensures(tag);
                }
                return &self.type_classes[i];
            }
            i = i + 1;
        }
        proof {
            let k = registered_tags().index_of(tag);
            assert(registered_tags()[k] == tag);
        }
        &self.type_classes[0]
    }

    /// The classes of the callable builtin types, in the order of [`callable_types_spec`].
    pub fn get_callable_builtin_types(&self) -> (r: Vec<&Class>)
        requires
            self.wf(),
        ensures
            r@.len() == callable_types_spec().len(),
            forall|i: int|
                0 <= i < r@.len() ==> *#[trigger] r@[i] == self.class_for(callable_types_spec()[i]),
    {
        let tags = callable_types();
        let mut out: Vec<&Class> = Vec::new();
        let mut i: usize = 0;
        while i < tags.len()
            invariant
                self.wf(),
                tags@ == callable_types_spec(),
                0 <= i <= tags@.len(),
                out@.len() == i,
                forall|j: int| 0 <= j < i ==> *#[trigger] out@[j] == self.class_for(callable_types_spec()[j]),
            decreases tags@.len() - i,
        {
            out.push(self.get_type_class(tags[i]));
            i = i + 1;
        }
        out
    }
}

/// After bootstrap every builtin class has `Type` as its metaclass, `Type` included; `Object`
/// has no parents, every other class has exactly `[Object]`; and each holds exactly the members
/// it takes, in their order.
pub proof fn lemma_bootstrap_shape(reg: TypeRegistry, members: Seq<Member>, tag: TypeTag)
    requires
        reg.wf(),
        reg.built_from(members),
    ensures
        reg.class_for(tag).type_tag == tag,
        reg.class_for(tag).metaclass == TypeTag::Type,
        tag == TypeTag::Object ==> reg.class_for(tag).parents@.len() == 0,
        tag != TypeTag::Object ==> reg.class_for(tag).parents@ == seq![TypeTag::Object],
        attribute_view(reg.class_for(tag).attributes@) == class_attributes(members, tag, members.len() as int),
{
    lemma_every_tag_registered(tag);
    registered_tags().index_of_first_ensures(tag);
    let k = registered_tags().index_of(tag);
    assert(is_builtin_class(reg.classes()[k], registered_tags()[k]));
}

} // verus!
