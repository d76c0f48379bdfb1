use vstd::prelude::*;

verus! {

/// Identity of a builtin type.
#[derive(Clone, Copy, Debug, PartialEq, Eq, Structural, Hash)]
pub enum TypeTag {
    Type,
    Object,
    Super,
    GetSetDescriptor,
    MemberDescriptor,
    Method,
    Function,
    BuiltinFunction,
    BuiltinMethod,
    Generator,
    Coroutine,
    NoneType,
    Ellipsis,
    NotImplemented,
    Bool,
    Int,
    Str,
    List,
    SetType,
    FrozenSet,
    Zip,
    Tuple,
    Range,
    Slice,
    Complex,
    Bytes,
    ByteArray,
    Memoryview,
    Dict,
    DictItems,
    DictKeys,
    DictValues,
    MappingProxy,
    DictItemIterator,
    DictKeyIterator,
    DictValueIterator,
    BytesIterator,
    ByteArrayIterator,
    RangeIterator,
    StringIterator,
    ListIterator,
    ReversedIterator,
    SetIterator,
    TupleIterator,
    Exception,
    Traceback,
    Frame,
    Module,
    Cell,
    Code,
    Classmethod,
    Staticmethod,
    Property,
}

/// The builtin types built uniformly at bootstrap: every tag but `Type` and `Object`, in
/// declaration order. Besides the named categories it carries `Super`, `MappingProxy` and the
/// list, set and tuple iterators, whose values the interpreter also creates and which therefore
/// need a class.
pub open spec fn all_types_spec() -> Seq<TypeTag> {
    seq![
        TypeTag::Super,
        TypeTag::GetSetDescriptor,
        TypeTag::MemberDescriptor,
        TypeTag::Method,
        TypeTag::Function,
        TypeTag::BuiltinFunction,
        TypeTag::BuiltinMethod,
        TypeTag::Generator,
        TypeTag::Coroutine,
        TypeTag::NoneType,
        TypeTag::Ellipsis,
        TypeTag::NotImplemented,
        TypeTag::Bool,
        TypeTag::Int,
        TypeTag::Str,
        TypeTag::List,
        TypeTag::SetType,
        TypeTag::FrozenSet,
        TypeTag::Zip,
        TypeTag::Tuple,
        TypeTag::Range,
        TypeTag::Slice,
        TypeTag::Complex,
        TypeTag::Bytes,
        TypeTag::ByteArray,
        TypeTag::Memoryview,
        TypeTag::Dict,
        TypeTag::DictItems,
        TypeTag::DictKeys,
        TypeTag::DictValues,
        TypeTag::MappingProxy,
        TypeTag::DictItemIterator,
        TypeTag::DictKeyIterator,
        TypeTag::DictValueIterator,
        TypeTag::BytesIterator,
        TypeTag::ByteArrayIterator,
        TypeTag::RangeIterator,
        TypeTag::StringIterator,
        TypeTag::ListIterator,
        TypeTag::ReversedIterator,
        TypeTag::SetIterator,
        TypeTag::TupleIterator,
        TypeTag::Exception,
        TypeTag::Traceback,
        TypeTag::Frame,
        TypeTag::Module,
        TypeTag::Cell,
        TypeTag::Code,
        TypeTag::Classmethod,
        TypeTag::Staticmethod,
        TypeTag::Property,
    ]
}

/// The builtin types that can be invoked like a builtin function, in declaration order.
pub open spec fn callable_types_spec() -> Seq<TypeTag> {
    seq![
        TypeTag::Type,
        TypeTag::Object,
        TypeTag::Bool,
        TypeTag::Int,
        TypeTag::Str,
        TypeTag::List,
        TypeTag::Dict,
        TypeTag::SetType,
        TypeTag::FrozenSet,
        TypeTag::Tuple,
        TypeTag::Range,
        TypeTag::Slice,
        TypeTag::Complex,
        TypeTag::Bytes,
        TypeTag::ByteArray,
        TypeTag::Memoryview,
        TypeTag::Zip,
        TypeTag::ReversedIterator,
        TypeTag::Classmethod,
        TypeTag::Staticmethod,
        TypeTag::Property,
        TypeTag::Exception,
    ]
}

/// Every tag that has a class after bootstrap: `Type`, `Object`, then the uniform ones.
pub open spec fn registered_tags() -> Seq<TypeTag> {
    seq![TypeTag::Type, TypeTag::Object] + all_types_spec()
}

/// Returns the tags of [`all_types_spec`].
pub fn all_types() -> (r: Vec<TypeTag>)
    ensures
        r@ == all_types_spec(),
{
    let v: Vec<TypeTag> = vec![
        TypeTag::Super,
        TypeTag::GetSetDescriptor,
        TypeTag::MemberDescriptor,
        TypeTag::Method,
        TypeTag::Function,
        TypeTag::BuiltinFunction,
        TypeTag::BuiltinMethod,
        TypeTag::Generator,
        TypeTag::Coroutine,
        TypeTag::NoneType,
        TypeTag::Ellipsis,
        TypeTag::NotImplemented,
        TypeTag::Bool,
        TypeTag::Int,
        TypeTag::Str,
        TypeTag::List,
        TypeTag::SetType,
        TypeTag::FrozenSet,
        TypeTag::Zip,
        TypeTag::Tuple,
        TypeTag::Range,
        TypeTag::Slice,
        TypeTag::Complex,
        TypeTag::Bytes,
        TypeTag::ByteArray,
        TypeTag::Memoryview,
        TypeTag::Dict,
        TypeTag::DictItems,
        TypeTag::DictKeys,
        TypeTag::DictValues,
        TypeTag::MappingProxy,
        TypeTag::DictItemIterator,
        TypeTag::DictKeyIterator,
        TypeTag::DictValueIterator,
        TypeTag::BytesIterator,
        TypeTag::ByteArrayIterator,
        TypeTag::RangeIterator,
        TypeTag::StringIterator,
        TypeTag::ListIterator,
        TypeTag::ReversedIterator,
        TypeTag::SetIterator,
        TypeTag::TupleIterator,
        TypeTag::Exception,
        TypeTag::Traceback,
        TypeTag::Frame,
        TypeTag::Module,
        TypeTag::Cell,
        TypeTag::Code,
        TypeTag::Classmethod,
        TypeTag::Staticmethod,
        TypeTag::Property,
    ];
    assert(v@ =~= all_types_spec());
    v
}

/// Returns the tags of [`callable_types_spec`].
pub fn callable_types() -> (r: Vec<TypeTag>)
    ensures
        r@ == callable_types_spec(),
{
    let v: Vec<TypeTag> = vec![
        TypeTag::Type,
        TypeTag::Object,
        TypeTag::Bool,
        TypeTag::Int,
        TypeTag::Str,
        TypeTag::List,
        TypeTag::Dict,
        TypeTag::SetType,
        TypeTag::FrozenSet,
        TypeTag::Tuple,
        TypeTag::Range,
        TypeTag::Slice,
        TypeTag::Complex,
        TypeTag::Bytes,
        TypeTag::ByteArray,
        TypeTag::Memoryview,
        TypeTag::Zip,
        TypeTag::ReversedIterator,
        TypeTag::Classmethod,
        TypeTag::Staticmethod,
        TypeTag::Property,
        TypeTag::Exception,
    ];
    assert(v@ =~= callable_types_spec());
    v
}

/// The types, besides `Type` and `Object`, whose builtin methods go on their class.
pub open spec fn method_types_spec() -> Seq<TypeTag> {
    seq![
        TypeTag::Super,
        TypeTag::Bool,
        TypeTag::Int,
        TypeTag::Str,
        TypeTag::List,
        TypeTag::SetType,
        TypeTag::FrozenSet,
        TypeTag::Tuple,
        TypeTag::Dict,
        TypeTag::Range,
        TypeTag::Slice,
        TypeTag::Zip,
        TypeTag::ReversedIterator,
        TypeTag::Bytes,
        TypeTag::Complex,
        TypeTag::ByteArray,
        TypeTag::Memoryview,
        TypeTag::Coroutine,
        TypeTag::Classmethod,
        TypeTag::Staticmethod,
        TypeTag::Property,
    ]
}

/// The types, besides `Type` and `Object`, whose descriptors go on their class.
pub open spec fn descriptor_types_spec() -> Seq<TypeTag> {
    seq![
        TypeTag::Function,
        TypeTag::Exception,
        TypeTag::Traceback,
    ]
}

/// Returns the tags of [`method_types_spec`].
pub fn builtin_methods() -> (r: Vec<TypeTag>)
    ensures
        r@ == method_types_spec(),
{
    let v: Vec<TypeTag> = vec![
        TypeTag::Super,
        TypeTag::Bool,
        TypeTag::Int,
        TypeTag::Str,
        TypeTag::List,
        TypeTag::SetType,
        TypeTag::FrozenSet,
        TypeTag::Tuple,
        TypeTag::Dict,
        TypeTag::Range,
        TypeTag::Slice,
        TypeTag::Zip,
        TypeTag::ReversedIterator,
        TypeTag::Bytes,
        TypeTag::Complex,
        TypeTag::ByteArray,
        TypeTag::Memoryview,
        TypeTag::Coroutine,
        TypeTag::Classmethod,
        TypeTag::Staticmethod,
        TypeTag::Property,
    ];
    assert(v@ =~= method_types_spec());
    v
}

/// Returns the tags of [`descriptor_types_spec`].
pub fn descriptors() -> (r: Vec<TypeTag>)
    ensures
        r@ == descriptor_types_spec(),
{
    let v: Vec<TypeTag> = vec![
        TypeTag::Function,
        TypeTag::Exception,
        TypeTag::Traceback,
    ];
    assert(v@ =~= descriptor_types_spec());
    v
}

/// Every builtin type tag has a class after bootstrap: `Type`, `Object` and every tag of
/// [`all_types_spec`] appear in [`registered_tags`], and no tag is left out.
pub proof fn lemma_every_tag_registered(tag: TypeTag)
    ensures
        registered_tags().contains(tag),
        all_types_spec().contains(tag) || tag == TypeTag::Type || tag == TypeTag::Object,
{
    match tag {
        TypeTag::Type => assert(registered_tags()[0] == tag),
        TypeTag::Object => assert(registered_tags()[1] == tag),
        TypeTag::Super => assert(registered_tags()[2] == tag),
        TypeTag::GetSetDescriptor => assert(registered_tags()[3] == tag),
        TypeTag::MemberDescriptor => assert(registered_tags()[4] == tag),
        TypeTag::Method => assert(registered_tags()[5] == tag),
        TypeTag::Function => assert(registered_tags()[6] == tag),
        TypeTag::BuiltinFunction => assert(registered_tags()[7] == tag),
        TypeTag::BuiltinMethod => assert(registered_tags()[8] == tag),
        TypeTag::Generator => assert(registered_tags()[9] == tag),
        TypeTag::Coroutine => assert(registered_tags()[10] == tag),
        TypeTag::NoneType => assert(registered_tags()[11] == tag),
        TypeTag::Ellipsis => assert(registered_tags()[12] == tag),
        TypeTag::NotImplemented => assert(registered_tags()[13] == tag),
        TypeTag::Bool => assert(registered_tags()[14] == tag),
        TypeTag::Int => assert(registered_tags()[15] == tag),
        TypeTag::Str => assert(registered_tags()[16] == tag),
        TypeTag::List => assert(registered_tags()[17] == tag),
        TypeTag::SetType => assert(registered_tags()[18] == tag),
        TypeTag::FrozenSet => assert(registered_tags()[19] == tag),
        TypeTag::Zip => assert(registered_tags()[20] == tag),
        TypeTag::Tuple => assert(registered_tags()[21] == tag),
        TypeTag::Range => assert(registered_tags()[22] == tag),
        TypeTag::Slice => assert(registered_tags()[23] == tag),
        TypeTag::Complex => assert(registered_tags()[24] == tag),
        TypeTag::Bytes => assert(registered_tags()[25] == tag),
        TypeTag::ByteArray => assert(registered_tags()[26] == tag),
        TypeTag::Memoryview => assert(registered_tags()[27] == tag),
        TypeTag::Dict => assert(registered_tags()[28] == tag),
        TypeTag::DictItems => assert(registered_tags()[29] == tag),
        TypeTag::DictKeys => assert(registered_tags()[30] == tag),
        TypeTag::DictValues => assert(registered_tags()[31] == tag),
        TypeTag::MappingProxy => assert(registered_tags()[32] == tag),
        TypeTag::DictItemIterator => assert(registered_tags()[33] == tag),
        TypeTag::DictKeyIterator => assert(registered_tags()[34] == tag),
        TypeTag::DictValueIterator => assert(registered_tags()[35] == tag),
        TypeTag::BytesIterator => assert(registered_tags()[36] == tag),
        TypeTag::ByteArrayIterator => assert(registered_tags()[37] == tag),
        TypeTag::RangeIterator => assert(registered_tags()[38] == tag),
        TypeTag::StringIterator => assert(registered_tags()[39] == tag),
        TypeTag::ListIterator => assert(registered_tags()[40] == tag),
        TypeTag::ReversedIterator => assert(registered_tags()[41] == tag),
        TypeTag::SetIterator => assert(registered_tags()[42] == tag),
        TypeTag::TupleIterator => assert(registered_tags()[43] == tag),
        TypeTag::Exception => assert(registered_tags()[44] == tag),
        TypeTag::Traceback => assert(registered_tags()[45] == tag),
        TypeTag::Frame => assert(registered_tags()[46] == tag),
        TypeTag::Module => assert(registered_tags()[47] == tag),
        TypeTag::Cell => assert(registered_tags()[48] == tag),
        TypeTag::Code => assert(registered_tags()[49] == tag),
        TypeTag::Classmethod => assert(registered_tags()[50] == tag),
        TypeTag::Staticmethod => assert(registered_tags()[51] == tag),
        TypeTag::Property => assert(registered_tags()[52] == tag),
    }
}

/// The registered tags are pairwise distinct, so each has exactly one class.
pub proof fn lemma_registered_tags_distinct()
    ensures
        forall|i: int, j: int|
            0 <= i < j < registered_tags().len() ==> registered_tags()[i] != registered_tags()[j],
{
}

} // verus!
