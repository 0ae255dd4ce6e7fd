//! Entries of the constant pool with everything that they refer to looked up.
//!
//! An entry of the pool names other entries by their numbers. Resolving an
//! entry follows these numbers and puts the entries that they name in their
//! place. It checks that every number names an entry of the kind that is
//! expected there, and stops at the first number that does not.

use crate::error::DecodeError;
use crate::mutf8::MStr;
use crate::reader::cpool;
use crate::reader::cpool::{lookup, ConstantPool, Index, Item};
use vstd::prelude::*;

verus! {

/// Something that names an entry of the pool and can be resolved to what
/// that entry stands for.
pub trait ToValue<'input>: Sized {
    type Target;

    /// What `self` resolves to in a pool with slots `pool`. Being a function
    /// of the two, it is the same however often it is asked for.
    spec fn resolved(self, pool: Seq<Option<Item<'input>>>) -> Result<Self::Target, DecodeError>;

    fn retrieve_from(self, pool: &ConstantPool<'input>) -> (r: Result<Self::Target, DecodeError>)
        ensures
            r == self.resolved(pool@),
    ;
}

/// Resolving the same index in the same pool twice gives the same outcome,
/// success or failure.
pub proof fn lemma_resolving_twice<'input, I: ToValue<'input>>(
    index: I,
    pool: Seq<Option<Item<'input>>>,
    first: Result<I::Target, DecodeError>,
    second: Result<I::Target, DecodeError>,
)
    requires
        first == index.resolved(pool),
        second == index.resolved(pool),
    ensures
        first == second,
{
}

impl<'input> ToValue<'input> for Index<cpool::Utf8<'input>> {
    type Target = MStr<'input>;

    open spec fn resolved(self, pool: Seq<Option<Item<'input>>>) -> Result<
        MStr<'input>,
        DecodeError,
    > {
        match lookup::<cpool::Utf8<'input>>(pool, self@) {
            Ok(this) => Ok(this.content),
            Err(e) => Err(e),
        }
    }

    fn retrieve_from(self, pool: &ConstantPool<'input>) -> (r: Result<MStr<'input>, DecodeError>) {
        let this = pool.get(self)?;
        Ok(this.content)
    }
}

/// A class or an interface, named by its name.
#[derive(Debug, Clone, Copy, PartialEq, Eq, PartialOrd, Ord, Hash)]
pub struct Class<'input> {
    pub name: MStr<'input>,
}

impl<'input> ToValue<'input> for Index<cpool::Class<'input>> {
    type Target = Class<'input>;

    open spec fn resolved(self, pool: Seq<Option<Item<'input>>>) -> Result<
        Class<'input>,
        DecodeError,
    > {
        match lookup::<cpool::Class<'input>>(pool, self@) {
            Ok(this) => match this.name.resolved(pool) {
                Ok(name) => Ok(Class { name }),
                Err(e) => Err(e),
            },
            Err(e) => Err(e),
        }
    }

    fn retrieve_from(self, pool: &ConstantPool<'input>) -> (r: Result<Class<'input>, DecodeError>) {
        let this = pool.get(self)?;
        let name = this.name.retrieve_from(pool)?;
        Ok(Class { name })
    }
}

/// A name together with the descriptor of a type.
#[derive(Debug, Clone, Copy, PartialEq, Eq, PartialOrd, Ord, Hash)]
pub struct NameAndType<'input> {
    pub name: MStr<'input>,
    pub descriptor: MStr<'input>,
}

impl<'input> ToValue<'input> for Index<cpool::NameAndType<'input>> {
    type Target = NameAndType<'input>;

    open spec fn resolved(self, pool: Seq<Option<Item<'input>>>) -> Result<
        NameAndType<'input>,
        DecodeError,
    > {
        match lookup::<cpool::NameAndType<'input>>(pool, self@) {
            Ok(this) => match this.name.resolved(pool) {
                Ok(name) => match this.descriptor.resolved(pool) {
                    Ok(descriptor) => Ok(NameAndType { name, descriptor }),
                    Err(e) => Err(e),
                },
                Err(e) => Err(e),
            },
            Err(e) => Err(e),
        }
    }

    fn retrieve_from(self, pool: &ConstantPool<'input>) -> (r: Result<
        NameAndType<'input>,
        DecodeError,
    >) {
        let this = pool.get(self)?;
        let name = this.name.retrieve_from(pool)?;
        let descriptor = this.descriptor.retrieve_from(pool)?;
        Ok(NameAndType { name, descriptor })
    }
}

/// A field, named by the class that it belongs to, its name and its type.
#[derive(Debug, Clone, Copy, PartialEq, Eq, PartialOrd, Ord, Hash)]
pub struct FieldRef<'input> {
    pub class: Class<'input>,
    pub name_and_type: NameAndType<'input>,
}

impl<'input> ToValue<'input> for Index<cpool::FieldRef<'input>> {
    type Target = FieldRef<'input>;

    open spec fn resolved(self, pool: Seq<Option<Item<'input>>>) -> Result<
        FieldRef<'input>,
        DecodeError,
    > {
        match lookup::<cpool::FieldRef<'input>>(pool, self@) {
            Ok(this) => match this.class.resolved(pool) {
                Ok(class) => match this.name_and_type.resolved(pool) {
                    Ok(name_and_type) => Ok(FieldRef { class, name_and_type }),
                    Err(e) => Err(e),
                },
                Err(e) => Err(e),
            },
            Err(e) => Err(e),
        }
    }

    fn retrieve_from(self, pool: &ConstantPool<'input>) -> (r: Result<
        FieldRef<'input>,
        DecodeError,
    >) {
        let this = pool.get(self)?;
        let class = this.class.retrieve_from(pool)?;
        let name_and_type = this.name_and_type.retrieve_from(pool)?;
        Ok(FieldRef { class, name_and_type })
    }
}

/// A method of a class, named by the class, its name and its type.
#[derive(Debug, Clone, Copy, PartialEq, Eq, PartialOrd, Ord, Hash)]
pub struct MethodRef<'input> {
    pub class: Class<'input>,
    pub name_and_type: NameAndType<'input>,
}

impl<'input> ToValue<'input> for Index<cpool::MethodRef<'input>> {
    type Target = MethodRef<'input>;

    open spec fn resolved(self, pool: Seq<Option<Item<'input>>>) -> Result<
        MethodRef<'input>,
        DecodeError,
    > {
        match lookup::<cpool::MethodRef<'input>>(pool, self@) {
            Ok(this) => match this.class.resolved(pool) {
                Ok(class) => match this.name_and_type.resolved(pool) {
                    Ok(name_and_type) => Ok(MethodRef { class, name_and_type }),
                    Err(e) => Err(e),
                },
                Err(e) => Err(e),
            },
            Err(e) => Err(e),
        }
    }

    fn retrieve_from(self, pool: &ConstantPool<'input>) -> (r: Result<
        MethodRef<'input>,
        DecodeError,
    >) {
        let this = pool.get(self)?;
        let class = this.class.retrieve_from(pool)?;
        let name_and_type = this.name_and_type.retrieve_from(pool)?;
        Ok(MethodRef { class, name_and_type })
    }
}

/// A method of an interface, named by the interface, its name and its type.
#[derive(Debug, Clone, Copy, PartialEq, Eq, PartialOrd, Ord, Hash)]
pub struct InterfaceMethodRef<'input> {
    pub class: Class<'input>,
    pub name_and_type: NameAndType<'input>,
}

impl<'input> ToValue<'input> for Index<cpool::InterfaceMethodRef<'input>> {
    type Target = InterfaceMethodRef<'input>;

    open spec fn resolved(self, pool: Seq<Option<Item<'input>>>) -> Result<
        InterfaceMethodRef<'input>,
        DecodeError,
    > {
        match lookup::<cpool::InterfaceMethodRef<'input>>(pool, self@) {
            Ok(this) => match this.class.resolved(pool) {
                Ok(class) => match this.name_and_type.resolved(pool) {
                    Ok(name_and_type) => Ok(InterfaceMethodRef { class, name_and_type }),
                    Err(e) => Err(e),
                },
                Err(e) => Err(e),
            },
            Err(e) => Err(e),
        }
    }

    fn retrieve_from(self, pool: &ConstantPool<'input>) -> (r: Result<
        InterfaceMethodRef<'input>,
        DecodeError,
    >) {
        let this = pool.get(self)?;
        let class = this.class.retrieve_from(pool)?;
        let name_and_type = this.name_and_type.retrieve_from(pool)?;
        Ok(InterfaceMethodRef { class, name_and_type })
    }
}

/// A string constant.
#[derive(Debug, Clone, Copy, PartialEq, Eq, PartialOrd, Ord, Hash)]
pub struct String<'input> {
    pub string: MStr<'input>,
}

impl<'input> ToValue<'input> for Index<cpool::String<'input>> {
    type Target = String<'input>;

    open spec fn resolved(self, pool: Seq<Option<Item<'input>>>) -> Result<
        String<'input>,
        DecodeError,
    > {
        match lookup::<cpool::String<'input>>(pool, self@) {
            Ok(this) => match this.string.resolved(pool) {
                Ok(string) => Ok(String { string }),
                Err(e) => Err(e),
            },
            Err(e) => Err(e),
        }
    }

    fn retrieve_from(self, pool: &ConstantPool<'input>) -> (r: Result<
        String<'input>,
        DecodeError,
    >) {
        let this = pool.get(self)?;
        let string = this.string.retrieve_from(pool)?;
        Ok(String { string })
    }
}

/// A four-byte whole number.
#[derive(Debug, Clone, Copy, PartialEq, Eq, PartialOrd, Ord, Hash)]
pub struct Integer {
    pub value: i32,
}

impl<'input> ToValue<'input> for Index<cpool::Integer> {
    type Target = Integer;

    open spec fn resolved(self, pool: Seq<Option<Item<'input>>>) -> Result<
        Integer,
        DecodeError,
    > {
        match lookup::<cpool::Integer>(pool, self@) {
            Ok(this) => Ok(Integer { value: this.value }),
            Err(e) => Err(e),
        }
    }

    fn retrieve_from(self, pool: &ConstantPool<'input>) -> (r: Result<Integer, DecodeError>) {
        let this = pool.get(self)?;
        Ok(Integer { value: this.value })
    }
}

/// An eight-byte whole number.
#[derive(Debug, Clone, Copy, PartialEq, Eq, PartialOrd, Ord, Hash)]
pub struct Long {
    pub value: i64,
}

impl<'input> ToValue<'input> for Index<cpool::Long> {
    type Target = Long;

    open spec fn resolved(self, pool: Seq<Option<Item<'input>>>) -> Result<
        Long,
        DecodeError,
    > {
        match lookup::<cpool::Long>(pool, self@) {
            Ok(this) => Ok(Long { value: this.value }),
            Err(e) => Err(e),
        }
    }

    fn retrieve_from(self, pool: &ConstantPool<'input>) -> (r: Result<Long, DecodeError>) {
        let this = pool.get(self)?;
        Ok(Long { value: this.value })
    }
}

/// A single-precision number, held as its bit pattern.
#[derive(Debug, Clone, Copy, PartialEq, Eq)]
pub struct Float {
    pub bits: u32,
}

impl<'input> ToValue<'input> for Index<cpool::Float> {
    type Target = Float;

    open spec fn resolved(self, pool: Seq<Option<Item<'input>>>) -> Result<
        Float,
        DecodeError,
    > {
        match lookup::<cpool::Float>(pool, self@) {
            Ok(this) => Ok(Float { bits: this.bits }),
            Err(e) => Err(e),
        }
    }

    fn retrieve_from(self, pool: &ConstantPool<'input>) -> (r: Result<Float, DecodeError>) {
        let this = pool.get(self)?;
        Ok(Float { bits: this.bits })
    }
}

/// A double-precision number, held as its bit pattern.
#[derive(Debug, Clone, Copy, PartialEq, Eq)]
pub struct Double {
    pub bits: u64,
}

impl<'input> ToValue<'input> for Index<cpool::Double> {
    type Target = Double;

    open spec fn resolved(self, pool: Seq<Option<Item<'input>>>) -> Result<
        Double,
        DecodeError,
    > {
        match lookup::<cpool::Double>(pool, self@) {
            Ok(this) => Ok(Double { bits: this.bits }),
            Err(e) => Err(e),
        }
    }

    fn retrieve_from(self, pool: &ConstantPool<'input>) -> (r: Result<Double, DecodeError>) {
        let this = pool.get(self)?;
        Ok(Double { bits: this.bits })
    }
}

/// The type of a method, given by its descriptor.
#[derive(Debug, Clone, Copy, PartialEq, Eq, PartialOrd, Ord, Hash)]
pub struct MethodType<'input> {
    pub descriptor: MStr<'input>,
}

impl<'input> ToValue<'input> for Index<cpool::MethodType<'input>> {
    type Target = MethodType<'input>;

    open spec fn resolved(self, pool: Seq<Option<Item<'input>>>) -> Result<
        MethodType<'input>,
        DecodeError,
    > {
        match lookup::<cpool::MethodType<'input>>(pool, self@) {
            Ok(this) => match this.descriptor.resolved(pool) {
                Ok(descriptor) => Ok(MethodType { descriptor }),
                Err(e) => Err(e),
            },
            Err(e) => Err(e),
        }
    }

    fn retrieve_from(self, pool: &ConstantPool<'input>) -> (r: Result<
        MethodType<'input>,
        DecodeError,
    >) {
        let this = pool.get(self)?;
        let descriptor = this.descriptor.retrieve_from(pool)?;
        Ok(MethodType { descriptor })
    }
}

/// A constant that is computed by a bootstrap method.
#[derive(Debug, Clone, Copy, PartialEq, Eq, PartialOrd, Ord, Hash)]
pub struct Dynamic<'input> {
    /// The number of an entry of the table of bootstrap methods.
    pub bootstrap_method_attr: u16,
    pub name_and_type: NameAndType<'input>,
}

impl<'input> ToValue<'input> for Index<cpool::Dynamic<'input>> {
    type Target = Dynamic<'input>;

    open spec fn resolved(self, pool: Seq<Option<Item<'input>>>) -> Result<
        Dynamic<'input>,
        DecodeError,
    > {
        match lookup::<cpool::Dynamic<'input>>(pool, self@) {
            Ok(this) => match this.name_and_type.resolved(pool) {
                Ok(name_and_type) => Ok(
                    Dynamic {
                        bootstrap_method_attr: this.bootstrap_method_attr,
                        name_and_type,
                    },
                ),
                Err(e) => Err(e),
            },
            Err(e) => Err(e),
        }
    }

    fn retrieve_from(self, pool: &ConstantPool<'input>) -> (r: Result<
        Dynamic<'input>,
        DecodeError,
    >) {
        let this = pool.get(self)?;
        let name_and_type = this.name_and_type.retrieve_from(pool)?;
        Ok(Dynamic { bootstrap_method_attr: this.bootstrap_method_attr, name_and_type })
    }
}

/// A call site that is linked by a bootstrap method.
#[derive(Debug, Clone, Copy, PartialEq, Eq, PartialOrd, Ord, Hash)]
pub struct InvokeDynamic<'input> {
    /// The number of an entry of the table of bootstrap methods.
    pub bootstrap_method_attr: u16,
    pub name_and_type: NameAndType<'input>,
}

impl<'input> ToValue<'input> for Index<cpool::InvokeDynamic<'input>> {
    type Target = InvokeDynamic<'input>;

    open spec fn resolved(self, pool: Seq<Option<Item<'input>>>) -> Result<
        InvokeDynamic<'input>,
        DecodeError,
    > {
        match lookup::<cpool::InvokeDynamic<'input>>(pool, self@) {
            Ok(this) => match this.name_and_type.resolved(pool) {
                Ok(name_and_type) => Ok(
                    InvokeDynamic {
                        bootstrap_method_attr: this.bootstrap_method_attr,
                        name_and_type,
                    },
                ),
                Err(e) => Err(e),
            },
            Err(e) => Err(e),
        }
    }

    fn retrieve_from(self, pool: &ConstantPool<'input>) -> (r: Result<
        InvokeDynamic<'input>,
        DecodeError,
    >) {
        let this = pool.get(self)?;
        let name_and_type = this.name_and_type.retrieve_from(pool)?;
        Ok(InvokeDynamic { bootstrap_method_attr: this.bootstrap_method_attr, name_and_type })
    }
}

/// A module, named by its name.
#[derive(Debug, Clone, Copy, PartialEq, Eq, PartialOrd, Ord, Hash)]
pub struct Module<'input> {
    pub name: MStr<'input>,
}

impl<'input> ToValue<'input> for Index<cpool::Module<'input>> {
    type Target = Module<'input>;

    open spec fn resolved(self, pool: Seq<Option<Item<'input>>>) -> Result<
        Module<'input>,
        DecodeError,
    > {
        match lookup::<cpool::Module<'input>>(pool, self@) {
            Ok(this) => match this.name.resolved(pool) {
                Ok(name) => Ok(Module { name }),
                Err(e) => Err(e),
            },
            Err(e) => Err(e),
        }
    }

    fn retrieve_from(self, pool: &ConstantPool<'input>) -> (r: Result<
        Module<'input>,
        DecodeError,
    >) {
        let this = pool.get(self)?;
        let name = this.name.retrieve_from(pool)?;
        Ok(Module { name })
    }
}

/// A package, named by its name.
#[derive(Debug, Clone, Copy, PartialEq, Eq, PartialOrd, Ord, Hash)]
pub struct Package<'input> {
    pub name: MStr<'input>,
}

impl<'input> ToValue<'input> for Index<cpool::Package<'input>> {
    type Target = Package<'input>;

    open spec fn resolved(self, pool: Seq<Option<Item<'input>>>) -> Result<
        Package<'input>,
        DecodeError,
    > {
        match lookup::<cpool::Package<'input>>(pool, self@) {
            Ok(this) => match this.name.resolved(pool) {
                Ok(name) => Ok(Package { name }),
                Err(e) => Err(e),
            },
            Err(e) => Err(e),
        }
    }

    fn retrieve_from(self, pool: &ConstantPool<'input>) -> (r: Result<
        Package<'input>,
        DecodeError,
    >) {
        let this = pool.get(self)?;
        let name = this.name.retrieve_from(pool)?;
        Ok(Package { name })
    }
}

/// A method handle with the entry that it refers to. That entry is handed
/// out as it stands in the pool; what it refers to in turn is not looked up.
#[derive(Debug, Clone, Copy, PartialEq, Eq)]
pub struct MethodHandle<'input> {
    pub kind: cpool::MethodKind,
    pub reference: Item<'input>,
}

impl<'input> ToValue<'input> for Index<cpool::MethodHandle<'input>> {
    type Target = MethodHandle<'input>;

    open spec fn resolved(self, pool: Seq<Option<Item<'input>>>) -> Result<
        MethodHandle<'input>,
        DecodeError,
    > {
        match lookup::<cpool::MethodHandle<'input>>(pool, self@) {
            Ok(this) => match lookup::<Item<'input>>(pool, this.reference@) {
                Ok(reference) => Ok(MethodHandle { kind: this.kind, reference }),
                Err(e) => Err(e),
            },
            Err(e) => Err(e),
        }
    }

    fn retrieve_from(self, pool: &ConstantPool<'input>) -> (r: Result<
        MethodHandle<'input>,
        DecodeError,
    >) {
        let this = pool.get(self)?;
        let reference = *pool.get(this.reference)?;
        Ok(MethodHandle { kind: this.kind, reference })
    }
}

} // verus!
