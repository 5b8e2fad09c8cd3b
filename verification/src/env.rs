use std::rc::Rc;
use vstd::prelude::*;
use vstd::string::*;

verus! {

/// A chain of bindings from names to shared values, the most recent first.
#[derive(Debug, Clone, PartialEq)]
pub enum Env<V> {
    Empty,
    Node(String, Rc<V>, Rc<Env<V>>),
}

/// The position of the first occurrence of `x` in `names`.
pub open spec fn first_index(names: Seq<Seq<char>>, x: Seq<char>) -> Option<nat>
    decreases names.len(),
{
    if names.len() == 0 {
        None
    } else if names[0] == x {
        Some(0)
    } else {
        match first_index(names.drop_first(), x) {
            Some(i) => Some(i + 1),
            None => None,
        }
    }
}

/// The text of the error for a name that is not bound.
pub open spec fn not_found_message(var: Seq<char>) -> Seq<char> {
    "Variable not found "@ + var
}

impl<V> Env<V> {
    /// The number of bindings.
    pub open spec fn len(self) -> nat
        decreases self,
    {
        match self {
            Env::Empty => 0,
            Env::Node(_, _, next) => 1 + next.len(),
        }
    }

    /// The bound names, the most recent first.
    pub open spec fn names(self) -> Seq<Seq<char>>
        decreases self,
    {
        match self {
            Env::Empty => Seq::empty(),
            Env::Node(x, _, next) => seq![x@] + next.names(),
        }
    }

    /// The bound values, the most recent first.
    pub open spec fn vals(self) -> Seq<Rc<V>>
        decreases self,
    {
        match self {
            Env::Empty => Seq::empty(),
            Env::Node(_, v, next) => seq![v] + next.vals(),
        }
    }

    /// The value of the most recent binding of `var`.
    pub open spec fn lookup(self, var: Seq<char>) -> Option<Rc<V>>
        decreases self,
    {
        match self {
            Env::Empty => None,
            Env::Node(x, v, next) => if x@ == var {
                Some(v)
            } else {
                next.lookup(var)
            },
        }
    }

    /// The position of the most recent binding of `var`, counted from the most recent.
    pub open spec fn lookup_idx(self, var: Seq<char>) -> Option<nat>
        decreases self,
    {
        match self {
            Env::Empty => None,
            Env::Node(x, _, next) => if x@ == var {
                Some(0)
            } else {
                match next.lookup_idx(var) {
                    Some(i) => Some(i + 1),
                    None => None,
                }
            },
        }
    }

    /// A new environment that binds `var` to `val` in front of this one.
    pub fn push(&self, var: &String, val: Rc<V>) -> (r: Env<V>)
        ensures
            r matches Env::Node(x, v, next) && x@ == var@ && v == val && *next == *self,
    {
        let copy = match self {
            Env::Empty => Env::Empty,
            Env::Node(x, v, next) => Env::Node(x.clone(), v.clone(), next.clone()),
        };
        Env::Node(var.clone(), val, Rc::new(copy))
    }

    /// The value bound to `var` by its most recent binding.
    pub fn find(&self, var: &String) -> (r: Result<Rc<V>, String>)
        ensures
            match self.lookup(var@) {
                Some(v) => r == Ok::<Rc<V>, String>(v),
                None => r matches Err(msg) && msg@ == not_found_message(var@),
            },
        decreases self,
    {
        match self {
            Env::Empty => Err(not_found(var)),
            Env::Node(x, val, next) => if x.eq(var) {
                Ok(val.clone())
            } else {
                next.find(var)
            },
        }
    }

    /// The position of the most recent binding of `var`, counted from the most recent.
    pub fn find_idx(&self, var: &String) -> (r: Result<usize, String>)
        requires
            self.len() <= usize::MAX,
        ensures
            match self.lookup_idx(var@) {
                Some(i) => r == Ok::<usize, String>(i as usize),
                None => r matches Err(msg) && msg@ == not_found_message(var@),
            },
        decreases self,
    {
        match self {
            Env::Empty => Err(not_found(var)),
            Env::Node(x, _, next) => if x.eq(var) {
                Ok(0)
            } else {
                proof {
                    lemma_lookup_idx_bound(&**next, var@);
                }
                match next.find_idx(var) {
                    Ok(idx) => Ok(idx + 1),
                    Err(msg) => Err(msg),
                }
            },
        }
    }
}

fn not_found(var: &String) -> (r: String)
    ensures
        r@ == not_found_message(var@),
{
    let mut msg = String::from_str("Variable not found ");
    msg.append(var.as_str());
    msg
}

/// A position found by `lookup_idx` lies within the environment.
pub proof fn lemma_lookup_idx_bound<V>(env: &Env<V>, var: Seq<char>)
    ensures
        env.lookup_idx(var) matches Some(i) ==> i < env.len(),
    decreases env,
{
    if let Env::Node(_, _, next) = env {
        lemma_lookup_idx_bound(&**next, var);
    }
}

/// Reading a name right after binding it gives the bound value, and binding a name
/// leaves every other name as it was.
pub proof fn law_lookup_after_push<V>(env: Env<V>, pushed: Env<V>, x: Seq<char>, v: Rc<V>, y: Seq<char>)
    requires
        pushed matches Env::Node(name, val, next) && name@ == x && val == v && *next == env,
    ensures
        pushed.lookup(x) == Some(v),
        y != x ==> pushed.lookup(y) == env.lookup(y),
        pushed.lookup_idx(x) == Some(0nat),
        y != x ==> pushed.lookup_idx(y) == match env.lookup_idx(y) {
            Some(i) => Some(i + 1),
            None => None::<nat>,
        },
        pushed.len() == env.len() + 1,
{
}

/// `find_idx` and `find` agree: a name has a position exactly when it has a value, the
/// position holds the name and the value, and no earlier position holds the name.
pub proof fn law_find_idx_agrees_with_find<V>(env: &Env<V>, x: Seq<char>)
    ensures
        env.lookup_idx(x) is Some <==> env.lookup(x) is Some,
        env.names().len() == env.len(),
        env.vals().len() == env.len(),
        env.lookup_idx(x) matches Some(i) ==> {
            &&& i < env.len()
            &&& env.names()[i as int] == x
            &&& env.lookup(x) == Some(env.vals()[i as int])
            &&& forall|j: int| 0 <= j < i ==> env.names()[j] != x
        },
    decreases env,
{
    if let Env::Node(y, v, next) = env {
        law_find_idx_agrees_with_find(&**next, x);
        if let Some(i) = env.lookup_idx(x) {
            if i > 0 {
                assert forall|j: int| 0 <= j < i implies env.names()[j] != x by {
                    if j > 0 {
                        assert(env.names()[j] == next.names()[j - 1]);
                    }
                }
            }
        }
    }
}

} // verus!
