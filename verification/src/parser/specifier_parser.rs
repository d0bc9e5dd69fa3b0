use vstd::prelude::*;

use crate::token::{TokenStream, TokenType};
use crate::util::{append_str, copy_string, string_of};

verus! {

broadcast use vstd::std_specs::vec::group_vec_axioms;

/// How a constraint judges a set of specifiers: it must hold none of its types, or at least
/// one of them.
#[derive(Debug, Clone, Copy, PartialEq, Eq, Structural)]
pub enum ConstraintKind {
    Exclude,
    Required,
}

/// A rule on the specifiers of a declaration, with the message for when it is broken.
pub struct SpecifierConstraint {
    pub kind: ConstraintKind,
    pub message: String,
    pub types: Vec<TokenType>,
}

/// A constraint as plain values.
pub struct ConstraintView {
    pub kind: ConstraintKind,
    pub message: Seq<char>,
    pub types: Set<TokenType>,
}

pub open spec fn constraint_view(c: SpecifierConstraint) -> ConstraintView {
    ConstraintView { kind: c.kind, message: c.message@, types: c.types@.to_set() }
}

/// Whether a set of specifiers meets a constraint.
pub open spec fn valid(c: ConstraintView, s: Set<TokenType>) -> bool {
    match c.kind {
        ConstraintKind::Exclude => c.types.disjoint(s),
        ConstraintKind::Required => !c.types.disjoint(s),
    }
}

/// The specifier tokens from position `p` on, after those in `seen`: they are read while their
/// type is allowed, and none may come twice.
pub open spec fn read_specifiers(allowed: Set<TokenType>, ts: Seq<crate::token::Token>, p: int, seen: Seq<TokenType>) -> Result<(Seq<TokenType>, int), Seq<char>>
    decreases ts.len() - p,
{
    if 0 <= p < ts.len() && allowed.contains(ts[p].token_type) {
        if seen.contains(ts[p].token_type) {
            Err("duplicate specifier "@ + ts[p].lexeme@)
        } else {
            read_specifiers(allowed, ts, p + 1, seen.push(ts[p].token_type))
        }
    } else {
        Ok((seen, p))
    }
}

/// The message of the first of `cs` that `s` breaks, from index `i` on.
pub open spec fn first_broken(cs: Seq<ConstraintView>, s: Set<TokenType>, i: int) -> Option<Seq<char>>
    decreases cs.len() - i,
{
    if i < 0 || i >= cs.len() {
        None
    } else if !valid(cs[i], s) {
        Some(cs[i].message)
    } else {
        first_broken(cs, s, i + 1)
    }
}

/// Whether the constraint of the `j`th type constraint applies to `s` and is broken.
pub open spec fn type_constraint_broken(tcs: Seq<(TokenType, ConstraintView)>, s: Set<TokenType>, j: int) -> bool {
    0 <= j < tcs.len() && s.contains(tcs[j].0) && !valid(tcs[j].1, s)
}

/// Reads the specifiers of a declaration and checks them against constraints.
pub struct SpecifierParser {
    allowed_token_types: Vec<TokenType>,
    token_type_constraints: Vec<(TokenType, SpecifierConstraint)>,
    constraints: Vec<SpecifierConstraint>,
}

impl SpecifierParser {
    /// The token types that may be specifiers.
    pub closed spec fn allowed(&self) -> Set<TokenType> {
        self.allowed_token_types@.to_set()
    }

    /// The constraints that apply when their token type is among the specifiers.
    pub closed spec fn type_constraints(&self) -> Seq<(TokenType, ConstraintView)> {
        self.token_type_constraints@.map_values(|c: (TokenType, SpecifierConstraint)| (c.0, constraint_view(c.1)))
    }

    /// The constraints that apply to every non-empty set of specifiers.
    pub closed spec fn constraints(&self) -> Seq<ConstraintView> {
        self.constraints@.map_values(|c: SpecifierConstraint| constraint_view(c))
    }

    /// A parser that allows the given token types and has no constraints.
    pub fn new(allowed_token_types: Vec<TokenType>) -> (p: Self)
        ensures
            p.allowed() == allowed_token_types@.to_set(),
            p.type_constraints() == Seq::<(TokenType, ConstraintView)>::empty(),
            p.constraints() == Seq::<ConstraintView>::empty(),
    {
        let p = SpecifierParser { allowed_token_types, token_type_constraints: Vec::new(), constraints: Vec::new() };
        assert(p.type_constraints() =~= Seq::<(TokenType, ConstraintView)>::empty());
        assert(p.constraints() =~= Seq::<ConstraintView>::empty());
        p
    }

    fn add_constraint(&mut self, constraint: SpecifierConstraint)
        ensures
            final(self).allowed() == old(self).allowed(),
            final(self).type_constraints() == old(self).type_constraints(),
            final(self).constraints() == old(self).constraints().push(constraint_view(constraint)),
    {
        let ghost c = constraint;
        self.constraints.push(constraint);
        assert(self.constraints() =~= old(self).constraints().push(constraint_view(c)));
    }

    fn add_token_type_constraint(&mut self, token_type: TokenType, constraint: SpecifierConstraint)
        ensures
            final(self).allowed() == old(self).allowed(),
            final(self).type_constraints() == old(self).type_constraints().push((token_type, constraint_view(constraint))),
            final(self).constraints() == old(self).constraints(),
    {
        let ghost c = constraint;
        self.token_type_constraints.push((token_type, constraint));
        assert(self.type_constraints() =~= old(self).type_constraints().push((token_type, constraint_view(c))));
    }

    fn is_allowed(&self, tt: TokenType) -> (r: bool)
        ensures
            r == self.allowed().contains(tt),
    {
        let mut i: usize = 0;
        while i < self.allowed_token_types.len()
            invariant
                i <= self.allowed_token_types@.len(),
                forall|j: int| 0 <= j < i ==> self.allowed_token_types@[j] != tt,
            decreases self.allowed_token_types@.len() - i,
        {
            if self.allowed_token_types[i] == tt {
                assert(self.allowed_token_types@.to_set().contains(self.allowed_token_types@[i as int]));
                return true;
            }
            i = i + 1;
        }
        false
    }
}

/// Whether `v` holds `t`.
fn holds(v: &Vec<TokenType>, t: TokenType) -> (r: bool)
    ensures
        r == v@.contains(t),
{
    let mut i: usize = 0;
    while i < v.len()
        invariant
            i <= v@.len(),
            forall|j: int| 0 <= j < i ==> v@[j] != t,
        decreases v@.len() - i,
    {
        if v[i] == t {
            return true;
        }
        i = i + 1;
    }
    false
}

/// Whether the specifiers `s` meet a constraint.
fn meets(c: &SpecifierConstraint, s: &Vec<TokenType>) -> (r: bool)
    ensures
        r == valid(constraint_view(*c), s@.to_set()),
{
    let mut shared = false;
    let mut i: usize = 0;
    while i < c.types.len()
        invariant
            i <= c.types@.len(),
            shared == exists|j: int| 0 <= j < i && s@.contains(#[trigger] c.types@[j]),
        decreases c.types@.len() - i,
    {
        if holds(s, c.types[i]) {
            shared = true;
        }
        i = i + 1;
    }
    proof {
        if shared {
            let j = choose|j: int| 0 <= j < c.types@.len() && s@.contains(#[trigger] c.types@[j]);
            assert(c.types@.to_set().contains(c.types@[j]));
            assert(s@.to_set().contains(c.types@[j]));
        } else {
            assert forall|t: TokenType| c.types@.to_set().contains(t) implies !s@.to_set().contains(t) by {
                let j = choose|j: int| 0 <= j < c.types@.len() && c.types@[j] == t;
                assert(!s@.contains(c.types@[j]));
            }
        }
    }
    match c.kind {
        ConstraintKind::Exclude => !shared,
        ConstraintKind::Required => shared,
    }
}

/// The token types that specify a type.
pub open spec fn type_specifier_types() -> Seq<TokenType> {
    seq![TokenType::Int, TokenType::Long, TokenType::Double, TokenType::Unsigned, TokenType::Signed]
}

/// The allowed specifiers: the type specifiers, and `extern` and `static` when storage
/// classes are included.
pub open spec fn allowed_types(include_storage_types: bool) -> Seq<TokenType> {
    if include_storage_types {
        type_specifier_types().push(TokenType::Extern).push(TokenType::Static)
    } else {
        type_specifier_types()
    }
}

/// The constraints tied to a specifier: `double` goes with no other type specifier, `signed`
/// not with `unsigned`, and `static` not with `extern` when storage classes are included.
pub open spec fn specifier_type_constraints(include_storage_types: bool) -> Seq<(TokenType, ConstraintView)> {
    let base = seq![
        (TokenType::Double, ConstraintView {
            kind: ConstraintKind::Exclude,
            message: "double cannot be combined with int, long, signed or unsigned"@,
            types: seq![TokenType::Int, TokenType::Long, TokenType::Signed, TokenType::Unsigned].to_set(),
        }),
        (TokenType::Signed, ConstraintView {
            kind: ConstraintKind::Exclude,
            message: "signed cannot be combined with unsigned"@,
            types: seq![TokenType::Unsigned].to_set(),
        }),
    ];
    if include_storage_types {
        base.push((TokenType::Static, ConstraintView {
            kind: ConstraintKind::Exclude,
            message: "static cannot be combined with extern"@,
            types: seq![TokenType::Extern].to_set(),
        }))
    } else {
        base
    }
}

/// The constraint on every non-empty set of specifiers: at least one type specifier.
pub open spec fn specifier_constraints() -> Seq<ConstraintView> {
    seq![ConstraintView {
        kind: ConstraintKind::Required,
        message: "at least one type specifier is required"@,
        types: type_specifier_types().to_set(),
    }]
}

fn type_specifiers() -> (v: Vec<TokenType>)
    ensures
        v@ == type_specifier_types(),
{
    let v = vec![TokenType::Int, TokenType::Long, TokenType::Double, TokenType::Unsigned, TokenType::Signed];
    assert(v@ =~= type_specifier_types());
    v
}

fn create_specifier_parser(include_storage_types: bool) -> (p: SpecifierParser)
    ensures
        p.allowed() == allowed_types(include_storage_types).to_set(),
        p.type_constraints() == specifier_type_constraints(include_storage_types),
        p.constraints() == specifier_constraints(),
{
    let mut allowed_token_types = type_specifiers();
    if include_storage_types {
        allowed_token_types.push(TokenType::Extern);
        allowed_token_types.push(TokenType::Static);
    }
    let mut ret = SpecifierParser::new(allowed_token_types);
    let double_excludes = vec![TokenType::Int, TokenType::Long, TokenType::Signed, TokenType::Unsigned];
    assert(double_excludes@ =~= seq![TokenType::Int, TokenType::Long, TokenType::Signed, TokenType::Unsigned]);
    ret.add_token_type_constraint(
        TokenType::Double,
        SpecifierConstraint {
            kind: ConstraintKind::Exclude,
            message: string_of("double cannot be combined with int, long, signed or unsigned"),
            types: double_excludes,
        },
    );
    let signed_excludes = vec![TokenType::Unsigned];
    assert(signed_excludes@ =~= seq![TokenType::Unsigned]);
    ret.add_token_type_constraint(
        TokenType::Signed,
        SpecifierConstraint {
            kind: ConstraintKind::Exclude,
            message: string_of("signed cannot be combined with unsigned"),
            types: signed_excludes,
        },
    );
    if include_storage_types {
        let static_excludes = vec![TokenType::Extern];
        assert(static_excludes@ =~= seq![TokenType::Extern]);
        ret.add_token_type_constraint(
            TokenType::Static,
            SpecifierConstraint {
                kind: ConstraintKind::Exclude,
                message: string_of("static cannot be combined with extern"),
                types: static_excludes,
            },
        );
    }
    ret.add_constraint(
        SpecifierConstraint {
            kind: ConstraintKind::Required,
            message: string_of("at least one type specifier is required"),
            types: type_specifiers(),
        },
    );
    assert(ret.type_constraints() =~= specifier_type_constraints(include_storage_types));
    assert(ret.constraints() =~= specifier_constraints());
    ret
}

/// A parser for the specifiers of a declaration: type specifiers and storage classes.
pub fn make_specifier_parser() -> (p: SpecifierParser)
    ensures
        p.allowed() == allowed_types(true).to_set(),
        p.type_constraints() == specifier_type_constraints(true),
        p.constraints() == specifier_constraints(),
{
    create_specifier_parser(true)
}

/// A parser for type specifiers alone.
pub fn make_type_specifier_parser() -> (p: SpecifierParser)
    ensures
        p.allowed() == allowed_types(false).to_set(),
        p.type_constraints() == specifier_type_constraints(false),
        p.constraints() == specifier_constraints(),
{
    create_specifier_parser(false)
}

impl SpecifierParser {
    /// Reads the specifiers at the stream's position while their type is allowed (none may
    /// come twice), then checks them: first the constraints tied to the specifiers read
    /// (when several are broken, the message is that of one of them), then, when any were
    /// read, the other constraints in order.
    #[verifier::loop_isolation(false)]
    pub fn parse(&self, stream: &mut TokenStream) -> (r: Result<Vec<TokenType>, String>)
        requires
            old(stream).tokens().len() < usize::MAX,
        ensures
            final(stream).tokens() == old(stream).tokens(),
            match read_specifiers(self.allowed(), old(stream).tokens(), old(stream).position() as int, Seq::empty()) {
                Err(m) => r matches Err(e) && e@ == m,
                Ok((s, q)) => if exists|j: int| type_constraint_broken(self.type_constraints(), s.to_set(), j) {
                    r matches Err(e) && exists|j: int| type_constraint_broken(self.type_constraints(), s.to_set(), j)
                        && e@ == self.type_constraints()[j].1.message
                } else if s.len() > 0 && first_broken(self.constraints(), s.to_set(), 0) is Some {
                    r matches Err(e) && e@ == first_broken(self.constraints(), s.to_set(), 0)->0
                } else {
                    r matches Ok(v) && v@ == s && final(stream).position() == q
                },
            },
    {
        let ghost ts = stream.tokens();
        let ghost p0 = stream.position() as int;
        let mut specifiers: Vec<TokenType> = Vec::new();
        let mut more = true;
        while more
            invariant
                stream.tokens() == ts,
                ts.len() < usize::MAX,
                p0 <= stream.position(),
                stream.position() <= ts.len() || (stream.position() == p0 && specifiers@.len() == 0),
                read_specifiers(self.allowed(), ts, p0, Seq::empty()) == (if more {
                    read_specifiers(self.allowed(), ts, stream.position() as int, specifiers@)
                } else {
                    Ok((specifiers@, stream.position() as int))
                }),
            decreases (if stream.position() <= ts.len() { ts.len() - stream.position() } else { 0 }) + (if more { 1int } else { 0 }),
        {
            match stream.peek() {
                Some(token) => {
                    let tt = token.token_type;
                    if self.is_allowed(tt) {
                        if holds(&specifiers, tt) {
                            let mut m = string_of("duplicate specifier ");
                            append_str(&mut m, token.lexeme.as_str());
                            return Err(m);
                        }
                        specifiers.push(tt);
                        stream.advance();
                    } else {
                        more = false;
                    }
                },
                None => {
                    more = false;
                },
            }
        }
        let ghost set = specifiers@.to_set();
        let mut i: usize = 0;
        while i < specifiers.len()
            invariant
                i <= specifiers@.len(),
                set == specifiers@.to_set(),
                forall|k: int, j: int|
                    #![trigger self.type_constraints()[j], specifiers@[k]]
                    0 <= k < i && 0 <= j < self.type_constraints().len() && self.type_constraints()[j].0 == specifiers@[k]
                        ==> valid(self.type_constraints()[j].1, set),
            decreases specifiers@.len() - i,
        {
            let mut j: usize = 0;
            while j < self.token_type_constraints.len()
                invariant
                    i < specifiers@.len(),
                    j <= self.token_type_constraints@.len(),
                    self.type_constraints().len() == self.token_type_constraints@.len(),
                    set == specifiers@.to_set(),
                    forall|k: int, jj: int|
                        #![trigger self.type_constraints()[jj], specifiers@[k]]
                        0 <= k < i && 0 <= jj < self.type_constraints().len() && self.type_constraints()[jj].0 == specifiers@[k]
                            ==> valid(self.type_constraints()[jj].1, set),
                    forall|jj: int|
                        0 <= jj < j && self.type_constraints()[jj].0 == specifiers@[i as int]
                            ==> valid(#[trigger] self.type_constraints()[jj].1, set),
                decreases self.token_type_constraints@.len() - j,
            {
                let (tt, c) = &self.token_type_constraints[j];
                assert(self.type_constraints()[j as int] == (*tt, constraint_view(*c)));
                if *tt == specifiers[i] && !meets(c, &specifiers) {
                    assert(set.contains(specifiers@[i as int]));
                    assert(type_constraint_broken(self.type_constraints(), set, j as int));
                    return Err(copy_string(&c.message));
                }
                j = j + 1;
            }
            i = i + 1;
        }
        proof {
            assert forall|j: int| !type_constraint_broken(self.type_constraints(), set, j) by {
                if 0 <= j < self.type_constraints().len() && set.contains(self.type_constraints()[j].0) {
                    let k = choose|k: int| 0 <= k < specifiers@.len() && specifiers@[k] == self.type_constraints()[j].0;
                    assert(valid(self.type_constraints()[j].1, set));
                }
            }
        }
        if specifiers.len() > 0 {
            let mut k: usize = 0;
            while k < self.constraints.len()
                invariant
                    k <= self.constraints@.len(),
                    self.constraints().len() == self.constraints@.len(),
                    set == specifiers@.to_set(),
                    first_broken(self.constraints(), set, 0) == first_broken(self.constraints(), set, k as int),
                decreases self.constraints@.len() - k,
            {
                assert(self.constraints()[k as int] == constraint_view(self.constraints@[k as int]));
                if !meets(&self.constraints[k], &specifiers) {
                    return Err(copy_string(&self.constraints[k].message));
                }
                k = k + 1;
            }
        }
        Ok(specifiers)
    }
}


/// The sets of specifiers a declaration may have: none at all, or at least one type
/// specifier, where `double` goes with no other type specifier, `signed` not with
/// `unsigned`, and `static` not with `extern`.
pub open spec fn acceptable_specifiers(s: Set<TokenType>) -> bool {
    s.len() == 0 || {
        &&& (s.contains(TokenType::Int) || s.contains(TokenType::Long) || s.contains(TokenType::Double)
            || s.contains(TokenType::Unsigned) || s.contains(TokenType::Signed))
        &&& s.contains(TokenType::Double) ==> !(s.contains(TokenType::Int) || s.contains(TokenType::Long)
            || s.contains(TokenType::Signed) || s.contains(TokenType::Unsigned))
        &&& s.contains(TokenType::Signed) ==> !s.contains(TokenType::Unsigned)
        &&& s.contains(TokenType::Static) ==> !s.contains(TokenType::Extern)
    }
}

/// Law: with the tables of `make_specifier_parser`, `parse` accepts the specifiers it has
/// read (none of them twice) exactly when they form an acceptable set: it returns an error
/// when a constraint tied to one of them is broken, or when some were read and none is a
/// type specifier, and otherwise returns them.
pub proof fn law_specifier_acceptance(s: Seq<TokenType>)
    ensures
        (!(exists|j: int| type_constraint_broken(specifier_type_constraints(true), s.to_set(), j))
            && !(s.len() > 0 && first_broken(specifier_constraints(), s.to_set(), 0) is Some))
            <==> acceptable_specifiers(s.to_set()),
{
    let set = s.to_set();
    let tcs = specifier_type_constraints(true);
    let cs = specifier_constraints();
    let dx = seq![TokenType::Int, TokenType::Long, TokenType::Signed, TokenType::Unsigned];
    let ux = seq![TokenType::Unsigned];
    let ex = seq![TokenType::Extern];
    let tys = type_specifier_types();
    assert(dx.to_set() =~= set![TokenType::Int, TokenType::Long, TokenType::Signed, TokenType::Unsigned]) by {
        assert forall|t: TokenType| dx.to_set().contains(t) <==> (t == TokenType::Int || t == TokenType::Long
            || t == TokenType::Signed || t == TokenType::Unsigned) by {
            if t == TokenType::Int { assert(dx[0] == t); }
            if t == TokenType::Long { assert(dx[1] == t); }
            if t == TokenType::Signed { assert(dx[2] == t); }
            if t == TokenType::Unsigned { assert(dx[3] == t); }
        }
    }
    assert(ux.to_set() =~= set![TokenType::Unsigned]) by {
        assert(ux[0] == TokenType::Unsigned);
    }
    assert(ex.to_set() =~= set![TokenType::Extern]) by {
        assert(ex[0] == TokenType::Extern);
    }
    assert(tys.to_set() =~= set![TokenType::Int, TokenType::Long, TokenType::Double, TokenType::Unsigned, TokenType::Signed]) by {
        assert forall|t: TokenType| tys.to_set().contains(t) <==> (t == TokenType::Int || t == TokenType::Long
            || t == TokenType::Double || t == TokenType::Unsigned || t == TokenType::Signed) by {
            if t == TokenType::Int { assert(tys[0] == t); }
            if t == TokenType::Long { assert(tys[1] == t); }
            if t == TokenType::Double { assert(tys[2] == t); }
            if t == TokenType::Unsigned { assert(tys[3] == t); }
            if t == TokenType::Signed { assert(tys[4] == t); }
        }
    }
    assert(tcs.len() == 3);
    assert(tcs[0].0 == TokenType::Double && tcs[1].0 == TokenType::Signed && tcs[2].0 == TokenType::Static);
    let broken = exists|j: int| type_constraint_broken(tcs, set, j);
    let b0 = set.contains(TokenType::Double) && !valid(tcs[0].1, set);
    let b1 = set.contains(TokenType::Signed) && !valid(tcs[1].1, set);
    let b2 = set.contains(TokenType::Static) && !valid(tcs[2].1, set);
    if broken {
        let j = choose|j: int| type_constraint_broken(tcs, set, j);
        assert(j == 0 || j == 1 || j == 2);
    }
    if b0 {
        assert(type_constraint_broken(tcs, set, 0));
    }
    if b1 {
        assert(type_constraint_broken(tcs, set, 1));
    }
    if b2 {
        assert(type_constraint_broken(tcs, set, 2));
    }
    assert(broken <==> (b0 || b1 || b2));
    assert(cs.len() == 1);
    assert(first_broken(cs, set, 1) is None);
    if s.len() > 0 {
        assert(set.contains(s[0]));
        assert(set.len() != 0);
    } else {
        assert(set =~= Set::<TokenType>::empty());
    }
}

} // verus!
