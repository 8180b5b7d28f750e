use vstd::prelude::*;
use vstd::string::StringExecFns;

verus! {

broadcast use vstd::std_specs::vec::group_vec_axioms;

/// The source language's types.
#[derive(Debug)]
pub enum Type {
    Int,
    String,
    List(Box<Type>),
    Object(String),
}

/// The mathematical model of a `Type`: class names are character sequences.
pub enum TypeView {
    Int,
    Str,
    List(Box<TypeView>),
    Object(Seq<char>),
}

pub open spec fn type_view(t: Type) -> TypeView
    decreases t,
{
    match t {
        Type::Int => TypeView::Int,
        Type::String => TypeView::Str,
        Type::List(inner) => TypeView::List(Box::new(type_view(*inner))),
        Type::Object(name) => TypeView::Object(name@),
    }
}

impl View for Type {
    type V = TypeView;

    open spec fn view(&self) -> TypeView {
        type_view(*self)
    }
}

impl Type {
    /// Structural equality of types.
    pub fn same(&self, other: &Type) -> (r: bool)
        ensures
            r == (type_view(*self) == type_view(*other)),
        decreases self,
    {
        let r = match self {
            Type::Int => other.is_int(),
            Type::String => match other {
                Type::String => true,
                _ => false,
            },
            Type::List(a) => match other {
                Type::List(b) => a.same(b),
                _ => false,
            },
            Type::Object(a) => match other {
                Type::Object(b) => a.eq(b),
                _ => false,
            },
        };
        r
    }

    /// True exactly for `Int`, the one numeric type.
    pub fn is_int(&self) -> (r: bool)
        ensures
            r == (self@ == TypeView::Int),
    {
        match self {
            Type::Int => true,
            _ => false,
        }
    }

    /// An exact copy of the type.
    pub fn copy(&self) -> (r: Type)
        ensures
            r == *self,
        decreases self,
    {
        match self {
            Type::Int => Type::Int,
            Type::String => Type::String,
            Type::List(a) => Type::List(Box::new(a.copy())),
            Type::Object(n) => Type::Object(n.clone()),
        }
    }
}

impl Type {
    /// True exactly for `Int`.
    pub fn is_number(&self) -> (r: bool)
        ensures
            r == (self@ is Int),
    {
        match self {
            Type::Int => true,
            Type::String => false,
            Type::List(_) => false,
            Type::Object(_) => false,
        }
    }

    /// The type's descriptor in method signatures.
    pub fn to_opcode(&self) -> (r: String)
        ensures
            r@ == descriptor(self@),
    {
        match self {
            Type::Int => String::from_str("I"),
            Type::String => String::from_str("Ljava/lang/String;"),
            Type::List(_) => String::from_str("Ljava/lang/Object;"),
            Type::Object(name) => {
                let mut r = String::from_str("L");
                r.append(name.as_str());
                r.append(";");
                r
            },
        }
    }
}

/// The descriptor of a type: `I`, `Ljava/lang/String;`, `Ljava/lang/Object;` for any list,
/// and `L<name>;` for an object type.
pub open spec fn descriptor(t: TypeView) -> Seq<char> {
    match t {
        TypeView::Int => "I"@,
        TypeView::Str => "Ljava/lang/String;"@,
        TypeView::List(_) => "Ljava/lang/Object;"@,
        TypeView::Object(name) => "L"@ + name + ";"@,
    }
}

impl Clone for Type {
    fn clone(&self) -> (r: Type)
        ensures
            r == *self,
    {
        self.copy()
    }
}

/// A constant that the analyzer knows a stack slot or a variable to hold.
#[derive(Debug)]
pub enum Value {
    Int(i32),
    String(String),
    List(Vec<Option<Value>>),
}

/// The mathematical model of a `Value`.
pub enum ValueView {
    Int(i32),
    Str(Seq<char>),
    List(Seq<Option<ValueView>>),
}

pub open spec fn value_view(v: Value) -> ValueView
    decreases v,
{
    match v {
        Value::Int(n) => ValueView::Int(n),
        Value::String(s) => ValueView::Str(s@),
        Value::List(items) => ValueView::List(opt_values_view(items@)),
    }
}

pub open spec fn opt_value_view(v: Option<Value>) -> Option<ValueView>
    decreases v,
{
    match v {
        Some(x) => Some(value_view(x)),
        None => None,
    }
}

pub open spec fn opt_values_view(s: Seq<Option<Value>>) -> Seq<Option<ValueView>>
    decreases s,
{
    if s.len() == 0 {
        Seq::empty()
    } else {
        opt_values_view(s.drop_last()).push(opt_value_view(s.last()))
    }
}

impl View for Value {
    type V = ValueView;

    open spec fn view(&self) -> ValueView {
        value_view(*self)
    }
}

impl Value {
    /// A copy with the same model.
    pub fn copy(&self) -> (r: Value)
        ensures
            r@ == self@,
        decreases self,
    {
        match self {
            Value::Int(n) => Value::Int(*n),
            Value::String(s) => Value::String(s.clone()),
            Value::List(items) => {
                let mut out: Vec<Option<Value>> = Vec::new();
                let mut i: usize = 0;
                while i < items.len()
                    invariant
                        i <= items@.len(),
                        *self == Value::List(*items),
                        opt_values_view(out@) == opt_values_view(items@.take(i as int)),
                    decreases items@.len() - i,
                {
                    proof {
                        assert(decreases_to!(*self => self->List_0));
                        assert(decreases_to!(self->List_0 => self->List_0[i as int]));
                    }
                    let c = copy_opt_value(&items[i]);
                    let ghost before = out@;
                    out.push(c);
                    proof {
                        assert(items@.take(i + 1).drop_last() == items@.take(i as int));
                        assert(out@.drop_last() == before);
                    }
                    i = i + 1;
                }
                proof {
                    assert(items@.take(items@.len() as int) == items@);
                }
                Value::List(out)
            },
        }
    }
}

fn copy_opt_value(v: &Option<Value>) -> (r: Option<Value>)
    ensures
        opt_value_view(r) == opt_value_view(*v),
    decreases v,
{
    match v {
        Some(x) => Some(x.copy()),
        None => None,
    }
}

/// One slot of the abstract operand stack: a type and, where known, a constant.
#[derive(Debug)]
pub struct StackElement {
    pub ty: Type,
    pub value: Option<Value>,
}

/// The mathematical model of a stack slot.
pub struct ElemView {
    pub ty: TypeView,
    pub value: Option<ValueView>,
}

impl View for StackElement {
    type V = ElemView;

    open spec fn view(&self) -> ElemView {
        ElemView { ty: self.ty@, value: opt_value_view(self.value) }
    }
}

impl StackElement {
    /// A copy with the same model.
    pub fn copy(&self) -> (r: StackElement)
        ensures
            r@ == self@,
    {
        StackElement { ty: self.ty.copy(), value: copy_opt_value(&self.value) }
    }
}

/// A named local variable: its slot and what it holds.
#[derive(Debug)]
pub struct LocalVar {
    pub index: usize,
    pub elem: StackElement,
}

/// The mathematical model of a local variable.
pub struct VarView {
    pub index: nat,
    pub elem: ElemView,
}

impl View for LocalVar {
    type V = VarView;

    open spec fn view(&self) -> VarView {
        VarView { index: self.index as nat, elem: self.elem@ }
    }
}

impl LocalVar {
    /// A copy with the same model.
    pub fn copy(&self) -> (r: LocalVar)
        ensures
            r@ == self@,
    {
        LocalVar { index: self.index, elem: self.elem.copy() }
    }
}

} // verus!
