//! Variable declarations, bindings of names to tagged values, and the
//! resolution of a name through up to three scopes.
//!
//! A tagged value is a text `tag:payload`. A value tagged `var` refers to
//! another name, which is looked up in turn; any other value stands for itself.

use vstd::prelude::*;
use vstd::string::StringExecFns;
use crate::utils::{same_text, split_lr, split_lr_spec};

verus! {

/// A scope as the contracts see it: names and the raw values bound to them.
pub type Scope = Map<Seq<char>, Seq<char>>;

/// The part of a tagged value before the first `:`; empty where there is none.
pub open spec fn tag_of(value: Seq<char>) -> Seq<char> {
    split_lr_spec(value, ":"@).0
}

/// The part of a tagged value after the first `:`; all of it where there is none.
pub open spec fn payload_of(value: Seq<char>) -> Seq<char> {
    split_lr_spec(value, ":"@).1
}

/// The value refers to a variable instead of standing for itself.
pub open spec fn is_var_ref(value: Seq<char>) -> bool {
    tag_of(value) == "var"@
}

/// The scope after `name` was set to `value`: an empty value is no value, so
/// it leaves `name` unbound; any other value is bound in place of the old one.
pub open spec fn bind(scope: Scope, name: Seq<char>, value: Seq<char>) -> Scope {
    if value.len() == 0 {
        scope.remove(name)
    } else {
        scope.insert(name, value)
    }
}

/// The raw value of `name` in the first of the three scopes that binds it.
pub open spec fn lookup(s0: Scope, s1: Scope, s2: Scope, name: Seq<char>) -> Option<Seq<char>> {
    if s0.contains_key(name) {
        Some(s0[name])
    } else if s1.contains_key(name) {
        Some(s1[name])
    } else if s2.contains_key(name) {
        Some(s2[name])
    } else {
        None
    }
}

/// The value that `name` resolves to: its raw value, followed through at most
/// `hops` references to other names. A name that is bound nowhere, and a chain
/// that needs more than `hops` references, resolve to nothing.
pub open spec fn resolve(s0: Scope, s1: Scope, s2: Scope, name: Seq<char>, hops: nat) -> Option<
    Seq<char>,
>
    decreases hops,
{
    match lookup(s0, s1, s2, name) {
        None => None,
        Some(value) => if !is_var_ref(value) {
            Some(value)
        } else if hops == 0 {
            None
        } else {
            resolve(s0, s1, s2, payload_of(value), (hops - 1) as nat)
        },
    }
}

/// How many references a resolution through three scopes may follow: one for
/// each name they bind. No chain of references needs more, unless it runs in a circle.
pub open spec fn hops_in(s0: Scope, s1: Scope, s2: Scope) -> nat {
    s0.len() + s1.len() + s2.len()
}

/// The value of an expression: what a reference resolves to, and any other
/// text as it stands.
pub open spec fn eval_spec(s0: Scope, s1: Scope, s2: Scope, expr: Seq<char>, hops: nat) -> Option<
    Seq<char>,
> {
    if is_var_ref(expr) {
        resolve(s0, s1, s2, payload_of(expr), hops)
    } else {
        Some(expr)
    }
}

/// The payload of a value, if there is a value.
pub open spec fn payload_opt(value: Option<Seq<char>>) -> Option<Seq<char>> {
    match value {
        Some(v) => Some(payload_of(v)),
        None => None,
    }
}

/// The characters of an optional text.
pub open spec fn text_opt(value: Option<String>) -> Option<Seq<char>> {
    match value {
        Some(v) => Some(v@),
        None => None,
    }
}

/// The scope that an optional store stands for: nothing is bound in a missing one.
pub open spec fn scope_of(store: Option<&VarBindingList>) -> Scope {
    match store {
        Some(s) => s@,
        None => Map::empty(),
    }
}

/// How many references a resolution through these stores may follow.
pub open spec fn hops_of(
    s0: &VarBindingList,
    s1: Option<&VarBindingList>,
    s2: Option<&VarBindingList>,
) -> nat {
    hops_in(s0@, scope_of(s1), scope_of(s2))
}

/// A value written as a tag without `:`, then `:`, then a payload, has that
/// tag and that payload.
pub proof fn lemma_tagged(tag: Seq<char>, payload: Seq<char>)
    requires
        !tag.contains(':'),
    ensures
        tag_of(tag + ":"@ + payload) == tag,
        payload_of(tag + ":"@ + payload) == payload,
{
    reveal_strlit(":");
    assert(":"@ =~= seq![':']);
    crate::utils::lemma_split_lr_of_joined(tag, ':', payload);
}

/// A value without `:` has no tag and is its own payload.
pub proof fn lemma_untagged(value: Seq<char>)
    requires
        !value.contains(':'),
    ensures
        tag_of(value) == Seq::<char>::empty(),
        payload_of(value) == value,
{
    reveal_strlit(":");
    crate::utils::lemma_first_occurrence_is_least(value, ":"@);
    let r = crate::utils::first_occurrence(value, ":"@);
    if r >= 0 {
        assert(value.subrange(r, r + 1)[0] == value[r]);
    }
}

/// What a name resolves to is a value, and the value of a value is the value
/// itself.
pub proof fn lemma_value_evaluates_to_itself(
    s0: Scope,
    s1: Scope,
    s2: Scope,
    name: Seq<char>,
    hops: nat,
    more: nat,
)
    requires
        resolve(s0, s1, s2, name, hops) is Some,
    ensures
        eval_spec(s0, s1, s2, resolve(s0, s1, s2, name, hops)->0, more) == resolve(
            s0,
            s1,
            s2,
            name,
            hops,
        ),
{
    lemma_resolve_is_value(s0, s1, s2, name, hops);
}

/// Whatever a name resolves to is no reference.
pub proof fn lemma_resolve_is_value(s0: Scope, s1: Scope, s2: Scope, name: Seq<char>, hops: nat)
    ensures
        resolve(s0, s1, s2, name, hops) matches Some(v) ==> !is_var_ref(v),
    decreases hops,
{
    match lookup(s0, s1, s2, name) {
        None => {},
        Some(value) => {
            if is_var_ref(value) && hops > 0 {
                lemma_resolve_is_value(s0, s1, s2, payload_of(value), (hops - 1) as nat);
            }
        },
    }
}

/// A resolution that succeeds within some number of references gives the
/// same value when more are allowed.
pub proof fn lemma_resolve_more_hops(
    s0: Scope,
    s1: Scope,
    s2: Scope,
    name: Seq<char>,
    hops: nat,
    more: nat,
)
    requires
        resolve(s0, s1, s2, name, hops) is Some,
        hops <= more,
    ensures
        resolve(s0, s1, s2, name, more) == resolve(s0, s1, s2, name, hops),
    decreases hops,
{
    match lookup(s0, s1, s2, name) {
        None => {},
        Some(value) => {
            if is_var_ref(value) {
                lemma_resolve_more_hops(
                    s0,
                    s1,
                    s2,
                    payload_of(value),
                    (hops - 1) as nat,
                    (more - 1) as nat,
                );
            }
        },
    }
}

/// The one scope that binds what three scopes bind together, the first
/// before the second before the third.
pub open spec fn merged(s0: Scope, s1: Scope, s2: Scope) -> Scope {
    s2.union_prefer_right(s1).union_prefer_right(s0)
}

/// Three scopes resolve a name as the scope does that merges them.
proof fn lemma_resolve_merged(s0: Scope, s1: Scope, s2: Scope, name: Seq<char>, hops: nat)
    ensures
        resolve(s0, s1, s2, name, hops) == resolve(
            merged(s0, s1, s2),
            Map::empty(),
            Map::empty(),
            name,
            hops,
        ),
    decreases hops,
{
    let m = merged(s0, s1, s2);
    let none = Map::<Seq<char>, Seq<char>>::empty();
    match lookup(s0, s1, s2, name) {
        None => {},
        Some(value) => {
            if is_var_ref(value) && hops > 0 {
                lemma_resolve_merged(s0, s1, s2, payload_of(value), (hops - 1) as nat);
            }
        },
    }
}

/// A resolution that succeeds without the binding of `gone` succeeds as
/// well with it, and gives the same value.
proof fn lemma_resolve_with_one_more(m: Scope, gone: Seq<char>, name: Seq<char>, hops: nat)
    requires
        resolve(m.remove(gone), Map::empty(), Map::empty(), name, hops) is Some,
    ensures
        resolve(m, Map::empty(), Map::empty(), name, hops) == resolve(
            m.remove(gone),
            Map::empty(),
            Map::empty(),
            name,
            hops,
        ),
    decreases hops,
{
    let none = Map::<Seq<char>, Seq<char>>::empty();
    match lookup(m.remove(gone), none, none, name) {
        None => {},
        Some(value) => {
            if is_var_ref(value) && hops > 0 {
                lemma_resolve_with_one_more(m, gone, payload_of(value), (hops - 1) as nat);
            }
        },
    }
}

/// A resolution that succeeds either does so without the binding of `gone`
/// as well, or it comes by `gone`: then `gone` resolves to the same value
/// within the hops that are left, of which the result is the number.
proof fn lemma_resolve_comes_by(m: Scope, gone: Seq<char>, name: Seq<char>, hops: nat) -> (left:
    Option<nat>)
    requires
        resolve(m, Map::empty(), Map::empty(), name, hops) is Some,
    ensures
        match left {
            None => resolve(m.remove(gone), Map::empty(), Map::empty(), name, hops) == resolve(
                m,
                Map::empty(),
                Map::empty(),
                name,
                hops,
            ),
            Some(j) => j <= hops && resolve(m, Map::empty(), Map::empty(), gone, j) == resolve(
                m,
                Map::empty(),
                Map::empty(),
                name,
                hops,
            ),
        },
    decreases hops,
{
    let none = Map::<Seq<char>, Seq<char>>::empty();
    if name == gone {
        Some(hops)
    } else {
        match lookup(m, none, none, name) {
            None => None,
            Some(value) => {
                if is_var_ref(value) && hops > 0 {
                    lemma_resolve_comes_by(m, gone, payload_of(value), (hops - 1) as nat)
                } else {
                    None
                }
            },
        }
    }
}

/// In one scope, a resolution that succeeds at all succeeds within as many
/// hops as the scope binds names.
proof fn lemma_resolve_within_size(m: Scope, name: Seq<char>, hops: nat)
    requires
        m.dom().finite(),
        resolve(m, Map::empty(), Map::empty(), name, hops) is Some,
    ensures
        resolve(m, Map::empty(), Map::empty(), name, m.len()) == resolve(
            m,
            Map::empty(),
            Map::empty(),
            name,
            hops,
        ),
    decreases m.len(), hops,
{
    let none = Map::<Seq<char>, Seq<char>>::empty();
    let value = lookup(m, none, none, name)->0;
    if is_var_ref(value) {
        let next = payload_of(value);
        let fewer = m.remove(name);
        match lemma_resolve_comes_by(m, name, next, (hops - 1) as nat) {
            None => {
                lemma_resolve_within_size(fewer, next, (hops - 1) as nat);
                lemma_resolve_with_one_more(m, name, next, fewer.len());
            },
            Some(j) => {
                lemma_resolve_within_size(m, name, j);
            },
        }
    }
}

/// Following references as far as the scopes bind names finds every value
/// there is: a chain of references that has not ended by then runs in a
/// circle, and allowing it more hops changes nothing.
pub proof fn lemma_resolve_needs_no_more_hops(
    s0: Scope,
    s1: Scope,
    s2: Scope,
    name: Seq<char>,
    hops: nat,
)
    requires
        s0.dom().finite(),
        s1.dom().finite(),
        s2.dom().finite(),
        hops >= hops_in(s0, s1, s2),
    ensures
        resolve(s0, s1, s2, name, hops) == resolve(s0, s1, s2, name, hops_in(s0, s1, s2)),
{
    let m = merged(s0, s1, s2);
    let size = hops_in(s0, s1, s2);
    assert(m.dom() =~= s2.dom().union(s1.dom()).union(s0.dom()));
    vstd::set_lib::lemma_len_union(s2.dom(), s1.dom());
    vstd::set_lib::lemma_len_union(s2.dom().union(s1.dom()), s0.dom());
    lemma_resolve_merged(s0, s1, s2, name, hops);
    lemma_resolve_merged(s0, s1, s2, name, size);
    let none = Map::<Seq<char>, Seq<char>>::empty();
    if resolve(m, none, none, name, hops) is Some {
        lemma_resolve_within_size(m, name, hops);
        lemma_resolve_more_hops(m, none, none, name, m.len(), size);
    } else if resolve(m, none, none, name, size) is Some {
        lemma_resolve_more_hops(m, none, none, name, size, hops);
    }
}

/// The declaration of a variable: a formal argument of a function or of an
/// instruction.
#[derive(Debug)]
pub struct VarDef {
    pub name: String,
    /// One of `i8`, `u8`, `i16`, `u16`, `i32`, `u32`, `f64`, `str`, `hex`.
    pub typ: String,
    /// Reserved.
    pub range: String,
    /// The value used where nothing is bound; empty for none.
    pub default: String,
}

impl VarDef {
    pub fn new(name: &str, typ: &str) -> (r: VarDef)
        ensures
            r.name@ == name@,
            r.typ@ == typ@,
            r.range@ == Seq::<char>::empty(),
            r.default@ == Seq::<char>::empty(),
    {
        VarDef {
            name: String::from_str(name),
            typ: String::from_str(typ),
            range: String::new(),
            default: String::new(),
        }
    }
}

/// Position of the first declaration of `name` in `defs`, or `-1`.
pub open spec fn first_def(defs: Seq<VarDef>, name: Seq<char>) -> int
    decreases defs.len(),
{
    if defs.len() == 0 {
        -1
    } else if defs[0].name@ == name {
        0
    } else {
        let rest = first_def(defs.subrange(1, defs.len() as int), name);
        if rest < 0 {
            -1
        } else {
            rest + 1
        }
    }
}

/// `first_def` finds a declaration of the name, and the earliest one.
pub proof fn lemma_first_def(defs: Seq<VarDef>, name: Seq<char>)
    ensures
        ({
            let r = first_def(defs, name);
            &&& -1 <= r < defs.len()
            &&& r >= 0 ==> defs[r].name@ == name
            &&& forall|j: int| 0 <= j < defs.len() && (r < 0 || j < r) ==> defs[j].name@ != name
        }),
    decreases defs.len(),
{
    if defs.len() > 0 && defs[0].name@ != name {
        let rest = defs.subrange(1, defs.len() as int);
        lemma_first_def(rest, name);
        let r = first_def(defs, name);
        assert forall|j: int| 0 <= j < defs.len() && (r < 0 || j < r) implies defs[j].name@
            != name by {
            if j > 0 {
                assert(rest[j - 1] == defs[j]);
            }
        }
    }
}

/// Declarations in the order in which they were added.
#[derive(Debug)]
pub struct VarDefList {
    pub defs: Vec<VarDef>,
}

impl VarDefList {
    pub fn new() -> (r: VarDefList)
        ensures
            r.defs@ == Seq::<VarDef>::empty(),
    {
        VarDefList { defs: Vec::new() }
    }

    pub fn add(&mut self, def: VarDef)
        ensures
            final(self).defs@ == old(self).defs@.push(def),
    {
        self.defs.push(def);
    }

    pub fn add_more(&mut self, defs: VarDefList)
        ensures
            final(self).defs@ == old(self).defs@ + defs.defs@,
    {
        let mut defs = defs;
        self.defs.append(&mut defs.defs);
    }

    /// The first declaration of `name`.
    pub fn find(&self, name: &str) -> (r: Option<&VarDef>)
        ensures
            match r {
                Some(def) => first_def(self.defs@, name@) >= 0 && *def == self.defs@[first_def(
                    self.defs@,
                    name@,
                )],
                None => first_def(self.defs@, name@) == -1,
            },
    {
        proof {
            lemma_first_def(self.defs@, name@);
        }
        let mut i: usize = 0;
        while i < self.defs.len()
            invariant
                i <= self.defs@.len(),
                forall|j: int| 0 <= j < i ==> self.defs@[j].name@ != name@,
                ({
                    let r = first_def(self.defs@, name@);
                    &&& -1 <= r < self.defs@.len()
                    &&& r >= 0 ==> self.defs@[r].name@ == name@
                    &&& forall|j: int|
                        0 <= j < self.defs@.len() && (r < 0 || j < r) ==> self.defs@[j].name@
                            != name@
                }),
            decreases self.defs@.len() - i,
        {
            if same_text(self.defs[i].name.as_str(), name) {
                return Some(&self.defs[i]);
            }
            i += 1;
        }
        None
    }
}

/// A name and the raw value bound to it.
#[derive(Debug)]
pub struct VarBinding {
    pub name: String,
    pub value: String,
}

impl VarBinding {
    pub fn new(name: &str, value: &str) -> (r: VarBinding)
        ensures
            r.name@ == name@,
            r.value@ == value@,
    {
        VarBinding { name: String::from_str(name), value: String::from_str(value) }
    }
}

impl Clone for VarBinding {
    fn clone(&self) -> (r: Self)
        ensures
            r.name@ == self.name@,
            r.value@ == self.value@,
    {
        VarBinding { name: self.name.clone(), value: self.value.clone() }
    }
}

/// No two of the bindings have the same name.
pub open spec fn names_unique(s: Seq<VarBinding>) -> bool {
    forall|i: int, j: int| 0 <= i < j < s.len() ==> (#[trigger] s[i]).name@ != (#[trigger] s[j]).name@
}

/// The scope that a run of bindings stands for.
pub open spec fn scope_from(s: Seq<VarBinding>) -> Scope
    decreases s.len(),
{
    if s.len() == 0 {
        Map::empty()
    } else {
        scope_from(s.drop_last()).insert(s.last().name@, s.last().value@)
    }
}

/// With unique names, the scope binds exactly the names of the bindings, each
/// to the value of its binding, and holds as many names as there are bindings.
pub proof fn lemma_scope_from(s: Seq<VarBinding>)
    requires
        names_unique(s),
    ensures
        scope_from(s).dom().finite(),
        scope_from(s).len() == s.len(),
        forall|i: int|
            0 <= i < s.len() ==> scope_from(s).contains_key((#[trigger] s[i]).name@) && scope_from(
                s,
            )[s[i].name@] == s[i].value@,
        forall|n: Seq<char>|
            scope_from(s).contains_key(n) ==> exists|i: int|
                0 <= i < s.len() && (#[trigger] s[i]).name@ == n,
    decreases s.len(),
{
    if s.len() > 0 {
        let front = s.drop_last();
        let last = s.last();
        assert forall|i: int, j: int| 0 <= i < j < front.len() implies (#[trigger] front[i]).name@
            != (#[trigger] front[j]).name@ by {}
        lemma_scope_from(front);
        assert forall|i: int| 0 <= i < s.len() implies scope_from(s).contains_key(
            (#[trigger] s[i]).name@,
        ) && scope_from(s)[s[i].name@] == s[i].value@ by {
            if i < s.len() - 1 {
                assert(front[i] == s[i]);
            }
        }
        assert forall|n: Seq<char>| scope_from(s).contains_key(n) implies exists|i: int|
            0 <= i < s.len() && (#[trigger] s[i]).name@ == n by {}
    }
}

/// A store of bindings, at most one for each name.
#[derive(Debug)]
pub struct VarBindingList {
    bindings: Vec<VarBinding>,
}

impl View for VarBindingList {
    type V = Map<Seq<char>, Seq<char>>;

    closed spec fn view(&self) -> Map<Seq<char>, Seq<char>> {
        scope_from(self.bindings@)
    }
}

impl Clone for VarBindingList {
    fn clone(&self) -> (r: Self)
        ensures
            r@ == self@,
    {
        proof {
            use_type_invariant(self);
        }
        let mut copy: Vec<VarBinding> = Vec::new();
        let mut i: usize = 0;
        while i < self.bindings.len()
            invariant
                i <= self.bindings@.len(),
                copy@.len() == i,
                forall|j: int|
                    0 <= j < i ==> (#[trigger] copy@[j]).name@ == self.bindings@[j].name@
                        && copy@[j].value@ == self.bindings@[j].value@,
            decreases self.bindings@.len() - i,
        {
            copy.push(self.bindings[i].clone());
            i += 1;
        }
        proof {
            lemma_same_texts_same_scope(copy@, self.bindings@);
        }
        VarBindingList { bindings: copy }
    }
}

/// Two runs of bindings with the same names and values, place by place, stand
/// for the same scope, and the names of one are unique where those of the
/// other are.
pub proof fn lemma_same_texts_same_scope(a: Seq<VarBinding>, b: Seq<VarBinding>)
    requires
        a.len() == b.len(),
        forall|j: int|
            0 <= j < a.len() ==> (#[trigger] a[j]).name@ == b[j].name@ && a[j].value@
                == b[j].value@,
    ensures
        scope_from(a) == scope_from(b),
        names_unique(b) ==> names_unique(a),
    decreases a.len(),
{
    if a.len() > 0 {
        assert forall|j: int| 0 <= j < a.drop_last().len() implies (#[trigger] a.drop_last()[j]).name@
            == b.drop_last()[j].name@ && a.drop_last()[j].value@ == b.drop_last()[j].value@ by {}
        lemma_same_texts_same_scope(a.drop_last(), b.drop_last());
    }
}

impl VarBindingList {
    #[verifier::type_invariant]
    spec fn unique(self) -> bool {
        names_unique(self.bindings@)
    }

    pub fn new() -> (r: VarBindingList)
        ensures
            r@ == Map::<Seq<char>, Seq<char>>::empty(),
    {
        VarBindingList { bindings: Vec::new() }
    }

    /// Takes the bindings out and leaves none behind.
    fn take_bindings(&mut self) -> (v: Vec<VarBinding>)
        ensures
            v@ == old(self).bindings@,
            names_unique(v@),
            final(self).bindings@.len() == 0,
    {
        proof {
            use_type_invariant(&*self);
        }
        let mut v: Vec<VarBinding> = Vec::new();
        std::mem::swap(&mut v, &mut self.bindings);
        v
    }

    /// Puts `v` in the place of the bindings.
    fn put_bindings(&mut self, v: Vec<VarBinding>)
        requires
            names_unique(v@),
        ensures
            final(self).bindings@ == v@,
    {
        let mut v = v;
        std::mem::swap(&mut v, &mut self.bindings);
    }

    /// How many names the store binds.
    pub fn len(&self) -> (n: usize)
        ensures
            n == self@.len(),
            self@.dom().finite(),
    {
        proof {
            use_type_invariant(self);
            lemma_scope_from(self.bindings@);
        }
        self.bindings.len()
    }

    /// Position of the binding of `name`.
    fn position(&self, name: &str) -> (r: Option<usize>)
        ensures
            match r {
                Some(i) => i < self.bindings@.len() && self.bindings@[i as int].name@ == name@
                    && self@.contains_key(name@) && self@[name@] == self.bindings@[i as int].value@,
                None => !self@.contains_key(name@),
            },
            names_unique(self.bindings@),
    {
        let mut i: usize = 0;
        while i < self.bindings.len()
            invariant
                i <= self.bindings@.len(),
                forall|j: int| 0 <= j < i ==> (#[trigger] self.bindings@[j]).name@ != name@,
            decreases self.bindings@.len() - i,
        {
            if same_text(self.bindings[i].name.as_str(), name) {
                proof {
                    use_type_invariant(self);
                    lemma_scope_from(self.bindings@);
                }
                return Some(i);
            }
            i += 1;
        }
        proof {
            use_type_invariant(self);
            lemma_scope_from(self.bindings@);
        }
        None
    }

    /// Adds a binding unless its name is bound already.
    pub fn add(&mut self, binding: VarBinding)
        ensures
            final(self)@ == if old(self)@.contains_key(binding.name@) {
                old(self)@
            } else {
                old(self)@.insert(binding.name@, binding.value@)
            },
    {
        if self.position(binding.name.as_str()).is_none() {
            proof {
                lemma_scope_from(self.bindings@);
                let s = self.bindings@.push(binding);
                assert(s.drop_last() =~= self.bindings@);
                assert forall|i: int, j: int| 0 <= i < j < s.len() implies (#[trigger] s[i]).name@
                    != (#[trigger] s[j]).name@ by {}
            }
            let mut v = self.take_bindings();
            v.push(binding);
            self.put_bindings(v);
        }
    }

    /// Adds every binding of `bindings` whose name is not bound here already.
    pub fn add_more(&mut self, bindings: &VarBindingList)
        ensures
            final(self)@ == bindings@.union_prefer_right(old(self)@),
    {
        proof {
            use_type_invariant(bindings);
            lemma_scope_from(bindings.bindings@);
        }
        let mut i: usize = 0;
        while i < bindings.bindings.len()
            invariant
                i <= bindings.bindings@.len(),
                names_unique(bindings.bindings@),
                self@ == scope_from(bindings.bindings@.take(i as int)).union_prefer_right(
                    old(self)@,
                ),
            decreases bindings.bindings@.len() - i,
        {
            let ghost front = bindings.bindings@.take(i as int);
            let ghost next = bindings.bindings@.take(i + 1);
            let b = bindings.bindings[i].clone();
            self.add(b);
            proof {
                assert(next.drop_last() =~= front);
                lemma_scope_from(front);
            }
            i += 1;
        }
        proof {
            assert(bindings.bindings@.take(i as int) =~= bindings.bindings@);
        }
    }

    /// The raw value bound to `name`.
    pub fn raw_value_of(&self, name: &str) -> (r: Option<&str>)
        ensures
            match r {
                Some(v) => self@.contains_key(name@) && v@ == self@[name@],
                None => !self@.contains_key(name@),
            },
    {
        match self.position(name) {
            Some(i) => Some(self.bindings[i].value.as_str()),
            None => None,
        }
    }

    pub fn contains(&self, name: &str) -> (r: bool)
        ensures
            r == self@.contains_key(name@),
    {
        self.position(name).is_some()
    }

    /// Binds `name` to `value`, in place of what it was bound to. An empty
    /// `value` binds nothing: it removes the binding of `name`, if there is one.
    pub fn set_binding(&mut self, name: &str, value: &str)
        ensures
            final(self)@ == bind(old(self)@, name@, value@),
            value@.len() == 0 ==> !final(self)@.contains_key(name@),
            value@.len() == 0 && !old(self)@.contains_key(name@) ==> final(self)@ == old(self)@,
            value@.len() > 0 ==> final(self)@.contains_key(name@) && final(self)@[name@]
                == value@,
    {
        let found = self.position(name);
        let empty = value.is_empty();
        match found {
            Some(i) => {
                if empty {
                    self.remove_at(i);
                } else {
                    self.replace_at(i, value);
                }
            },
            None => {
                if !empty {
                    self.add(VarBinding::new(name, value));
                }
            },
        }
    }

    /// Removes the binding at position `i`.
    fn remove_at(&mut self, i: usize)
        requires
            i < old(self).bindings@.len(),
        ensures
            final(self)@ == old(self)@.remove(old(self).bindings@[i as int].name@),
    {
        proof {
            use_type_invariant(&*self);
            lemma_scope_from(self.bindings@);
            let s = self.bindings@;
            let t = s.remove(i as int);
            lemma_scope_from(t);
            assert forall|n: Seq<char>| scope_from(t).contains_key(n) <==> scope_from(s).remove(
                s[i as int].name@,
            ).contains_key(n) by {
                if scope_from(s).remove(s[i as int].name@).contains_key(n) {
                    let k = choose|k: int| 0 <= k < s.len() && (#[trigger] s[k]).name@ == n;
                    let kt = if k < i { k } else { k - 1 };
                    assert(t[kt] == s[k]);
                }
            }
            assert forall|n: Seq<char>| scope_from(t).contains_key(n) implies scope_from(t)[n]
                == scope_from(s)[n] by {}
        }
        let mut v = self.take_bindings();
        let _ = v.remove(i);
        self.put_bindings(v);
    }

    /// Gives the binding at position `i` the value `value`.
    fn replace_at(&mut self, i: usize, value: &str)
        requires
            i < old(self).bindings@.len(),
        ensures
            final(self)@ == old(self)@.insert(old(self).bindings@[i as int].name@, value@),
    {
        let name = self.bindings[i].name.clone();
        let b = VarBinding { name, value: String::from_str(value) };
        proof {
            use_type_invariant(&*self);
            lemma_scope_from(self.bindings@);
            let s = self.bindings@;
            let t = s.update(i as int, b);
            lemma_scope_from(t);
            assert forall|n: Seq<char>| scope_from(t).contains_key(n) <==> scope_from(s).insert(
                s[i as int].name@,
                value@,
            ).contains_key(n) by {
                if scope_from(s).contains_key(n) {
                    let k = choose|k: int| 0 <= k < s.len() && (#[trigger] s[k]).name@ == n;
                    assert(t[k].name@ == s[k].name@);
                }
            }
            assert forall|n: Seq<char>| scope_from(t).contains_key(n) implies scope_from(t)[n]
                == scope_from(s).insert(s[i as int].name@, value@)[n] by {}
        }
        let mut v = self.take_bindings();
        v.set(i, b);
        self.put_bindings(v);
    }

    /// The raw value of `name` in the first of the stores that binds it: this
    /// one, then `upvars1`, then `upvars2`.
    pub fn lookup_raw<'a>(
        &'a self,
        name: &str,
        upvars1: Option<&'a VarBindingList>,
        upvars2: Option<&'a VarBindingList>,
    ) -> (r: Option<&'a str>)
        ensures
            match r {
                Some(v) => lookup(self@, scope_of(upvars1), scope_of(upvars2), name@) == Some(v@),
                None => lookup(self@, scope_of(upvars1), scope_of(upvars2), name@) is None,
            },
    {
        if let Some(v) = self.raw_value_of(name) {
            return Some(v);
        }
        if let Some(s) = upvars1 {
            if let Some(v) = s.raw_value_of(name) {
                return Some(v);
            }
        }
        if let Some(s) = upvars2 {
            if let Some(v) = s.raw_value_of(name) {
                return Some(v);
            }
        }
        None
    }

    /// The value of the variable `name`, looked up here, then in `upvars1`,
    /// then in `upvars2`. A value that refers to another variable is followed,
    /// through at most as many references as the stores hold bindings: a chain
    /// that needs more runs in a circle and has no value.
    pub fn eval_var<'a>(
        &'a self,
        name: &'a str,
        upvars1: Option<&'a VarBindingList>,
        upvars2: Option<&'a VarBindingList>,
    ) -> (r: Option<String>)
        ensures
            text_opt(r) == resolve(
                self@,
                scope_of(upvars1),
                scope_of(upvars2),
                name@,
                hops_of(self, upvars1, upvars2),
            ),
            forall|more: nat|
                more >= hops_of(self, upvars1, upvars2) ==> #[trigger] resolve(
                    self@,
                    scope_of(upvars1),
                    scope_of(upvars2),
                    name@,
                    more,
                ) == text_opt(r),
    {
        let r = self.eval_var_within(name, upvars1, upvars2);
        proof {
            assert forall|more: nat| more >= hops_of(self, upvars1, upvars2) implies #[trigger] resolve(
                self@,
                scope_of(upvars1),
                scope_of(upvars2),
                name@,
                more,
            ) == text_opt(r) by {
                lemma_resolve_needs_no_more_hops(
                    self@,
                    scope_of(upvars1),
                    scope_of(upvars2),
                    name@,
                    more,
                );
            }
        }
        r
    }

    /// Follows the references from `name` as far as the stores hold bindings.
    fn eval_var_within<'a>(
        &'a self,
        name: &'a str,
        upvars1: Option<&'a VarBindingList>,
        upvars2: Option<&'a VarBindingList>,
    ) -> (r: Option<String>)
        ensures
            text_opt(r) == resolve(
                self@,
                scope_of(upvars1),
                scope_of(upvars2),
                name@,
                hops_of(self, upvars1, upvars2),
            ),
            self@.dom().finite(),
            scope_of(upvars1).dom().finite(),
            scope_of(upvars2).dom().finite(),
    {
        let n1: usize = match upvars1 {
            Some(s) => s.len(),
            None => 0,
        };
        let n2: usize = match upvars2 {
            Some(s) => s.len(),
            None => 0,
        };
        let mut hops: u128 = self.len() as u128 + n1 as u128 + n2 as u128;
        let mut cur: &str = name;
        loop
            invariant
                resolve(
                    self@,
                    scope_of(upvars1),
                    scope_of(upvars2),
                    name@,
                    hops_of(self, upvars1, upvars2),
                ) == resolve(self@, scope_of(upvars1), scope_of(upvars2), cur@, hops as nat),
                self@.dom().finite(),
                scope_of(upvars1).dom().finite(),
                scope_of(upvars2).dom().finite(),
            decreases hops,
        {
            match self.lookup_raw(cur, upvars1, upvars2) {
                None => {
                    return None;
                },
                Some(value) => {
                    let (tag, payload) = split_lr(value, ":");
                    if !same_text(tag, "var") {
                        return Some(String::from_str(value));
                    }
                    if hops == 0 {
                        return None;
                    }
                    hops -= 1;
                    cur = payload;
                },
            }
        }
    }

    /// The payload of the value of the variable `name`: the value without its tag.
    pub fn eval_var_str<'a>(
        &'a self,
        name: &'a str,
        upvars1: Option<&'a VarBindingList>,
        upvars2: Option<&'a VarBindingList>,
    ) -> (r: Option<String>)
        ensures
            text_opt(r) == payload_opt(
                resolve(
                    self@,
                    scope_of(upvars1),
                    scope_of(upvars2),
                    name@,
                    hops_of(self, upvars1, upvars2),
                ),
            ),
    {
        match self.eval_var(name, upvars1, upvars2) {
            Some(value) => {
                let (_, payload) = split_lr(value.as_str(), ":");
                Some(String::from_str(payload))
            },
            None => None,
        }
    }

    /// The value of an expression: that of the variable it refers to where it
    /// is tagged `var`, and the expression itself otherwise.
    pub fn eval<'a>(
        &'a self,
        expr: &'a str,
        upvars1: Option<&'a VarBindingList>,
        upvars2: Option<&'a VarBindingList>,
    ) -> (r: Option<String>)
        ensures
            text_opt(r) == eval_spec(
                self@,
                scope_of(upvars1),
                scope_of(upvars2),
                expr@,
                hops_of(self, upvars1, upvars2),
            ),
            forall|more: nat|
                more >= hops_of(self, upvars1, upvars2) ==> #[trigger] eval_spec(
                    self@,
                    scope_of(upvars1),
                    scope_of(upvars2),
                    expr@,
                    more,
                ) == text_opt(r),
    {
        let (tag, payload) = split_lr(expr, ":");
        if same_text(tag, "var") {
            self.eval_var(payload, upvars1, upvars2)
        } else {
            Some(String::from_str(expr))
        }
    }

    /// The payload of the value of an expression.
    pub fn eval_str<'a>(
        &'a self,
        expr: &'a str,
        upvars1: Option<&'a VarBindingList>,
        upvars2: Option<&'a VarBindingList>,
    ) -> (r: Option<String>)
        ensures
            text_opt(r) == payload_opt(
                eval_spec(
                    self@,
                    scope_of(upvars1),
                    scope_of(upvars2),
                    expr@,
                    hops_of(self, upvars1, upvars2),
                ),
            ),
    {
        match self.eval(expr, upvars1, upvars2) {
            Some(value) => {
                let (_, payload) = split_lr(value.as_str(), ":");
                Some(String::from_str(payload))
            },
            None => None,
        }
    }

    pub fn remove_binding(&mut self, name: &str)
        ensures
            final(self)@ == old(self)@.remove(name@),
    {
        match self.position(name) {
            Some(i) => {
                self.remove_at(i);
            },
            None => {
            },
        }
    }
}

} // verus!
