use treewalk::type_registry::{Attribute, Member, MemberKind, TypeRegistry};
use treewalk::type_tag::{all_types, callable_types, TypeTag};

#[test]
fn integer_class_is_wired_to_type_and_object() {
    let registry = TypeRegistry::new(&vec![]);
    let class = registry.get_type_class(TypeTag::Int);
    assert_eq!(class.type_tag, TypeTag::Int);
    assert_eq!(class.metaclass, TypeTag::Type);
    assert_eq!(class.parents, vec![TypeTag::Object]);
}

#[test]
fn every_builtin_type_has_a_class() {
    let registry = TypeRegistry::new(&vec![]);
    let mut tags = all_types();
    tags.push(TypeTag::Type);
    tags.push(TypeTag::Object);
    assert_eq!(tags.len(), 53);
    for tag in tags {
        assert_eq!(registry.get_type_class(tag).type_tag, tag);
    }
}

#[test]
fn callable_types_come_in_declared_order() {
    let registry = TypeRegistry::new(&vec![]);
    let classes = registry.get_callable_builtin_types();
    let tags: Vec<TypeTag> = classes.iter().map(|c| c.type_tag).collect();
    assert_eq!(tags, callable_types());
    assert_eq!(tags.len(), 22);
    assert_eq!(tags[0], TypeTag::Type);
    assert_eq!(tags[1], TypeTag::Object);
    assert_eq!(tags[2], TypeTag::Bool);
    assert_eq!(tags[21], TypeTag::Exception);
    assert!(!tags.contains(&TypeTag::Super));
}

#[test]
fn type_and_object_close_the_cycle() {
    let registry = TypeRegistry::new(&vec![]);
    let type_class = registry.get_type_class(TypeTag::Type);
    assert_eq!(type_class.metaclass, TypeTag::Type);
    assert_eq!(type_class.parents, vec![TypeTag::Object]);
    let object_class = registry.get_type_class(TypeTag::Object);
    assert_eq!(object_class.metaclass, TypeTag::Type);
    assert!(object_class.parents.is_empty());
    for tag in all_types() {
        let class = registry.get_type_class(tag);
        assert_eq!(class.metaclass, TypeTag::Type);
        assert_eq!(class.parents, vec![TypeTag::Object]);
    }
}

fn member(owner: TypeTag, kind: MemberKind, name: &str) -> Member {
    Member { owner, kind, name: name.to_string() }
}

fn attribute(kind: MemberKind, name: &str) -> Attribute {
    Attribute { name: name.to_string(), kind }
}

#[test]
fn members_are_attached_where_their_type_takes_them() {
    let members = vec![
        member(TypeTag::Int, MemberKind::Method, "bit_length"),
        member(TypeTag::Int, MemberKind::Descriptor, "real"),
        member(TypeTag::Object, MemberKind::Method, "__init__"),
        member(TypeTag::Object, MemberKind::Descriptor, "__class__"),
        member(TypeTag::Object, MemberKind::DataDescriptor, "__dict__"),
        member(TypeTag::Type, MemberKind::Method, "mro"),
        member(TypeTag::Type, MemberKind::Descriptor, "__name__"),
        member(TypeTag::Type, MemberKind::DataDescriptor, "__doc__"),
        member(TypeTag::Function, MemberKind::Descriptor, "__code__"),
        member(TypeTag::Function, MemberKind::Method, "__call__"),
        member(TypeTag::Int, MemberKind::Method, "conjugate"),
    ];
    let registry = TypeRegistry::new(&members);
    assert_eq!(
        registry.get_type_class(TypeTag::Int).attributes,
        vec![attribute(MemberKind::Method, "bit_length"), attribute(MemberKind::Method, "conjugate")]
    );
    assert_eq!(
        registry.get_type_class(TypeTag::Object).attributes,
        vec![
            attribute(MemberKind::Method, "__init__"),
            attribute(MemberKind::Descriptor, "__class__"),
            attribute(MemberKind::DataDescriptor, "__dict__"),
        ]
    );
    assert_eq!(
        registry.get_type_class(TypeTag::Type).attributes,
        vec![attribute(MemberKind::Method, "mro"), attribute(MemberKind::Descriptor, "__name__")]
    );
    assert_eq!(
        registry.get_type_class(TypeTag::Function).attributes,
        vec![attribute(MemberKind::Descriptor, "__code__")]
    );
    assert!(registry.get_type_class(TypeTag::Str).attributes.is_empty());
}

#[test]
fn object_data_descriptors_keep_their_own_names() {
    let members = vec![
        member(TypeTag::Object, MemberKind::DataDescriptor, "__dict__"),
        member(TypeTag::Object, MemberKind::DataDescriptor, "__weakref__"),
    ];
    let registry = TypeRegistry::new(&members);
    let names: Vec<String> =
        registry.get_type_class(TypeTag::Object).attributes.iter().map(|a| a.name.clone()).collect();
    assert_eq!(names, vec!["__dict__", "__weakref__"]);
}

#[test]
fn a_later_member_replaces_an_earlier_one_of_the_same_name() {
    let members = vec![
        member(TypeTag::Object, MemberKind::Method, "__init__"),
        member(TypeTag::Object, MemberKind::DataDescriptor, "__dict__"),
        member(TypeTag::Object, MemberKind::Descriptor, "__init__"),
        member(TypeTag::Int, MemberKind::Method, "real"),
        member(TypeTag::Int, MemberKind::Method, "real"),
    ];
    let registry = TypeRegistry::new(&members);
    assert_eq!(
        registry.get_type_class(TypeTag::Object).attributes,
        vec![attribute(MemberKind::Descriptor, "__init__"), attribute(MemberKind::DataDescriptor, "__dict__")]
    );
    assert_eq!(registry.get_type_class(TypeTag::Int).attributes, vec![attribute(MemberKind::Method, "real")]);
}
