//! Types of the Hindley-Milner system that expressions are checked against.

use vstd::prelude::*;

verus! {

/// A type: a function, a named constructor applied to arguments, or a type
/// variable.
#[derive(Debug, PartialEq, Eq)]
pub enum Type {
    /// A function from the first type to the second; functions of several
    /// arguments are curried.
    Arrow(Box<Type>, Box<Type>),
    /// A primitive (`int`) or composite (`list(int)`) type.
    Constructed(&'static str, Vec<Type>),
    /// A type variable, identified by its number.
    Variable(u32),
}

/// The mathematical value of a [`Type`].
pub enum TypeTerm {
    Arrow(Box<TypeTerm>, Box<TypeTerm>),
    Constructed(Seq<char>, Seq<TypeTerm>),
    Variable(u32),
}

/// Why two types could not be made equal.
#[derive(Debug, PartialEq, Eq)]
pub enum UnificationError {
    /// The numbered variable would have to contain itself.
    Occurs(u32),
    /// The two types differ in their constructors.
    Failure(Type, Type),
}

/// The mathematical value of a [`UnificationError`].
pub enum UnificationFault {
    Occurs(u32),
    Failure(TypeTerm, TypeTerm),
}

impl View for UnificationError {
    type V = UnificationFault;

    open spec fn view(&self) -> UnificationFault {
        match self {
            UnificationError::Occurs(v) => UnificationFault::Occurs(*v),
            UnificationError::Failure(a, b) => UnificationFault::Failure(a@, b@),
        }
    }
}

impl View for Type {
    type V = TypeTerm;

    open spec fn view(&self) -> TypeTerm {
        self.term()
    }
}

/// The distinct members of a sequence, in the order in which they first
/// occur.
pub open spec fn first_seen(vars: Seq<u32>) -> Seq<u32>
    decreases vars.len(),
{
    if vars.len() == 0 {
        Seq::empty()
    } else if first_seen(vars.drop_last()).contains(vars.last()) {
        first_seen(vars.drop_last())
    } else {
        first_seen(vars.drop_last()).push(vars.last())
    }
}

/// There are no more distinct members than members.
pub proof fn lemma_first_seen_len(vars: Seq<u32>)
    ensures
        first_seen(vars).len() <= vars.len(),
    decreases vars.len(),
{
    if vars.len() > 0 {
        lemma_first_seen_len(vars.drop_last());
    }
}

impl TypeTerm {
    /// The variables of the type, one for each occurrence, from left to
    /// right.
    pub open spec fn variables(self) -> Seq<u32>
        decreases self,
    {
        match self {
            TypeTerm::Arrow(arg, ret) => arg.variables() + ret.variables(),
            TypeTerm::Constructed(_, args) => Self::variables_in(args),
            TypeTerm::Variable(v) => seq![v],
        }
    }

    /// The variables of a sequence of types, one for each occurrence, from
    /// left to right.
    pub open spec fn variables_in(ts: Seq<TypeTerm>) -> Seq<u32>
        decreases ts,
    {
        if ts.len() == 0 {
            Seq::empty()
        } else {
            Self::variables_in(ts.drop_last()) + ts.last().variables()
        }
    }

    /// The type with each variable replaced by the variable numbered `base`
    /// plus the position of the variable in `order`.
    pub open spec fn renamed(self, order: Seq<u32>, base: nat) -> TypeTerm
        decreases self,
    {
        match self {
            TypeTerm::Arrow(arg, ret) => TypeTerm::Arrow(
                Box::new(arg.renamed(order, base)),
                Box::new(ret.renamed(order, base)),
            ),
            TypeTerm::Constructed(name, args) => TypeTerm::Constructed(
                name,
                Seq::new(
                    args.len(),
                    |i: int|
                        if 0 <= i < args.len() {
                            args[i].renamed(order, base)
                        } else {
                            arbitrary()
                        },
                ),
            ),
            TypeTerm::Variable(v) => TypeTerm::Variable((base + order.index_of(v)) as u32),
        }
    }

    /// The type with new variables for its own: the variables of the type
    /// are numbered from `next` on, in the order in which they first occur
    /// from left to right. With it, the number after the last one used.
    pub open spec fn instantiated(self, next: nat) -> (TypeTerm, nat) {
        let order = first_seen(self.variables());
        (self.renamed(order, next), next + order.len())
    }

    /// The type has as many variables, counted by occurrence, as
    /// `occurrences` says.
    pub proof fn lemma_occurrences(self)
        ensures
            self.variables().len() == self.occurrences(),
        decreases self,
    {
        match self {
            TypeTerm::Arrow(arg, ret) => {
                arg.lemma_occurrences();
                ret.lemma_occurrences();
            },
            TypeTerm::Constructed(_, args) => {
                Self::lemma_occurrences_in(args);
            },
            TypeTerm::Variable(_) => {},
        }
    }

    /// A sequence of types has as many variables, counted by occurrence, as
    /// `occurrences_in` says.
    pub proof fn lemma_occurrences_in(ts: Seq<TypeTerm>)
        ensures
            Self::variables_in(ts).len() == Self::occurrences_in(ts),
        decreases ts,
    {
        if ts.len() > 0 {
            Self::lemma_occurrences_in(ts.drop_last());
            ts.last().lemma_occurrences();
        }
    }

    /// The number of variable occurrences in the type.
    pub open spec fn occurrences(self) -> nat
        decreases self,
    {
        match self {
            TypeTerm::Arrow(arg, ret) => arg.occurrences() + ret.occurrences(),
            TypeTerm::Constructed(_, args) => Self::occurrences_in(args),
            TypeTerm::Variable(_) => 1,
        }
    }

    /// Whether the numbered variable occurs in the type.
    pub open spec fn mentions(self, v: u32) -> bool
        decreases self,
    {
        match self {
            TypeTerm::Arrow(arg, ret) => arg.mentions(v) || ret.mentions(v),
            TypeTerm::Constructed(_, args) => exists|i: int|
                0 <= i < args.len() && (#[trigger] args[i]).mentions(v),
            TypeTerm::Variable(w) => v == w,
        }
    }

    /// The number of variable occurrences in a sequence of types.
    pub open spec fn occurrences_in(ts: Seq<TypeTerm>) -> nat
        decreases ts,
    {
        if ts.len() == 0 {
            0
        } else {
            ts.last().occurrences() + Self::occurrences_in(ts.drop_last())
        }
    }

    /// The type that remains once every curried argument has been supplied.
    pub open spec fn result_type(self) -> TypeTerm
        decreases self,
    {
        match self {
            TypeTerm::Arrow(_, ret) => ret.result_type(),
            _ => self,
        }
    }
}

impl Type {
    /// The mathematical value of the type.
    pub open spec fn term(self) -> TypeTerm
        decreases self,
    {
        match self {
            Type::Arrow(arg, ret) => TypeTerm::Arrow(Box::new(arg.term()), Box::new(ret.term())),
            Type::Constructed(name, args) => TypeTerm::Constructed(
                name@,
                Seq::new(
                    args@.len(),
                    |i: int|
                        if 0 <= i < args@.len() {
                            args@[i].term()
                        } else {
                            arbitrary()
                        },
                ),
            ),
            Type::Variable(v) => TypeTerm::Variable(v),
        }
    }

    /// The number of variable occurrences in the type, or `u64::MAX` if there
    /// are more.
    pub fn variable_occurrences(&self) -> (n: u64)
        ensures
            n == if self@.occurrences() < u64::MAX {
                self@.occurrences()
            } else {
                u64::MAX as nat
            },
        decreases self,
    {
        match self {
            Type::Arrow(arg, ret) => {
                let a = arg.variable_occurrences();
                let b = ret.variable_occurrences();
                if a > u64::MAX - b {
                    u64::MAX
                } else {
                    a + b
                }
            },
            Type::Constructed(_, args) => {
                let mut total: u64 = 0;
                let mut i: usize = 0;
                let ghost terms = self@->Constructed_1;
                while i < args.len()
                    invariant
                        i <= args.len(),
                        terms.len() == args.len(),
                        forall|j: int| 0 <= j < args.len() ==> terms[j] == args@[j]@,
                        decreases_to!(*self => *args),
                        total == if TypeTerm::occurrences_in(terms.subrange(0, i as int))
                            < u64::MAX {
                            TypeTerm::occurrences_in(terms.subrange(0, i as int))
                        } else {
                            u64::MAX as nat
                        },
                    decreases self, args.len() - i,
                {
                    proof {
                        vstd::std_specs::vec::axiom_vec_index_decreases(*args, i as int);
                        assert(terms.subrange(0, i + 1).drop_last() == terms.subrange(0, i as int));
                    }
                    let b = args[i].variable_occurrences();
                    if total > u64::MAX - b {
                        total = u64::MAX;
                    } else {
                        total = total + b;
                    }
                    i = i + 1;
                }
                assert(terms.subrange(0, i as int) == terms);
                total
            },
            Type::Variable(_) => 1,
        }
    }

    /// A copy of the type.
    pub fn duplicate(&self) -> (r: Type)
        ensures
            r@ == self@,
        decreases self,
    {
        match self {
            Type::Arrow(arg, ret) => Type::Arrow(Box::new(arg.duplicate()), Box::new(ret.duplicate())),
            Type::Constructed(name, args) => {
                let mut out: Vec<Type> = Vec::new();
                let mut i: usize = 0;
                assert(decreases_to!(*self => *args));
                while i < args.len()
                    invariant
                        i <= args.len(),
                        out.len() == i,
                        forall|j: int| 0 <= j < i ==> out@[j]@ == args@[j]@,
                        decreases_to!(*self => *args),
                    decreases self, args.len() - i,
                {
                    proof {
                        vstd::std_specs::vec::axiom_vec_index_decreases(*args, i as int);
                    }
                    out.push(args[i].duplicate());
                    i = i + 1;
                }
                let r = Type::Constructed(name, out);
                assert(r@ == self@) by {
                    let a = r@->Constructed_1;
                    let b = self@->Constructed_1;
                    assert(a.len() == b.len());
                    assert forall|j: int| 0 <= j < a.len() implies a[j] == b[j] by {
                        assert(out@[j]@ == args@[j]@);
                    }
                    assert(a =~= b);
                }
                r
            },
            Type::Variable(v) => Type::Variable(*v),
        }
    }
}

impl Clone for Type {
    fn clone(&self) -> (r: Self)
        ensures
            r@ == self@,
    {
        self.duplicate()
    }
}

} // verus!
