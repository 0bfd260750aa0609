use vstd::prelude::*;
use crate::token::{Expr, Token, group_token_view, pairs_view, tokens_view};
use crate::token_ops::{clone_pairs, clone_token, token_eq};

verus! {

broadcast use group_token_view;

/// The index of the first binding of `key` in `env`, if there is one.
pub open spec fn find_key(env: Seq<(Expr, Expr)>, key: Expr) -> Option<int>
    decreases env.len(),
{
    if env.len() == 0 {
        None
    } else {
        match find_key(env.drop_last(), key) {
            Some(i) => Some(i),
            None => if env.last().0 == key {
                Some(env.len() - 1)
            } else {
                None
            },
        }
    }
}

/// The value that `env` binds to `key`.
pub open spec fn env_get(env: Seq<(Expr, Expr)>, key: Expr) -> Option<Expr> {
    match find_key(env, key) {
        Some(i) => Some(env[i].1),
        None => None,
    }
}

/// `env` with `key` bound to `value`: the binding replaced in place where
/// `key` is bound, appended where it is not.
pub open spec fn env_insert(env: Seq<(Expr, Expr)>, key: Expr, value: Expr) -> Seq<(Expr, Expr)> {
    match find_key(env, key) {
        Some(i) => env.update(i, (key, value)),
        None => env.push((key, value)),
    }
}

/// The environment that inserting `pairs` one after another into `base` gives.
pub open spec fn env_extend(base: Seq<(Expr, Expr)>, pairs: Seq<(Expr, Expr)>) -> Seq<(Expr, Expr)>
    decreases pairs.len(),
{
    if pairs.len() == 0 {
        base
    } else {
        let prefix = env_extend(base, pairs.drop_last());
        env_insert(prefix, pairs.last().0, pairs.last().1)
    }
}

/// No key is bound twice.
pub open spec fn keys_unique(env: Seq<(Expr, Expr)>) -> bool {
    forall|i: int, j: int| 0 <= i < j < env.len() ==> #[trigger] env[i].0 != #[trigger] env[j].0
}

/// The map that an environment stands for.
pub open spec fn env_map(env: Seq<(Expr, Expr)>) -> Map<Expr, Expr> {
    Map::new(|k: Expr| find_key(env, k) is Some, |k: Expr| env_get(env, k)->Some_0)
}

pub proof fn lemma_find_key(env: Seq<(Expr, Expr)>, key: Expr)
    ensures
        match find_key(env, key) {
            Some(i) => 0 <= i < env.len() && env[i].0 == key && forall|j: int|
                0 <= j < i ==> #[trigger] env[j].0 != key,
            None => forall|j: int| 0 <= j < env.len() ==> #[trigger] env[j].0 != key,
        },
    decreases env.len(),
{
    if env.len() > 0 {
        lemma_find_key(env.drop_last(), key);
        assert forall|j: int| 0 <= j < env.len() - 1 implies env.drop_last()[j] == env[j] by {}
    }
}

/// No key is ever bound twice: binding keeps the keys distinct.
pub proof fn law_insert_keeps_keys_unique(env: Seq<(Expr, Expr)>, key: Expr, value: Expr)
    requires
        keys_unique(env),
    ensures
        keys_unique(env_insert(env, key, value)),
{
    let e2 = env_insert(env, key, value);
    lemma_find_key(env, key);
    match find_key(env, key) {
        Some(i) => {
            assert forall|a: int, b: int| 0 <= a < b < e2.len() implies #[trigger] e2[a].0
                != #[trigger] e2[b].0 by {
                if a != i && b != i {
                    assert(e2[a] == env[a] && e2[b] == env[b]);
                } else if a == i {
                    assert(e2[b] == env[b]);
                    assert(env[a].0 != env[b].0);
                } else {
                    assert(e2[a] == env[a]);
                    assert(env[a].0 != env[b].0);
                }
            }
        },
        None => {
            assert forall|a: int, b: int| 0 <= a < b < e2.len() implies #[trigger] e2[a].0
                != #[trigger] e2[b].0 by {
                assert(e2[a] == env[a]);
                if b < env.len() {
                    assert(e2[b] == env[b]);
                }
            }
        },
    }
}

/// The state that evaluation reads and changes: the bindings of the
/// environment and the lines that `prn` has printed so far.
pub struct EvalState {
    pub env: Seq<(Expr, Expr)>,
    pub out: Seq<Seq<char>>,
}

/// The environment of an evaluation: the bindings that `def` and `let`
/// make, in the order in which they were first made, and the lines that
/// `prn` has printed and that the caller has not taken yet.
pub struct Env {
    bindings: Vec<(Token, Token)>,
    printed: Vec<String>,
}

/// The models of a sequence of strings.
pub open spec fn lines_view(s: Seq<String>) -> Seq<Seq<char>> {
    Seq::new(s.len(), |i: int| s[i]@)
}

impl View for Env {
    type V = EvalState;

    closed spec fn view(&self) -> EvalState {
        EvalState { env: pairs_view(self.bindings@), out: lines_view(self.printed@) }
    }
}

impl Env {
    /// A key is bound at most once, as in a map.
    #[verifier::type_invariant]
    spec fn unique_keys(self) -> bool {
        keys_unique(pairs_view(self.bindings@))
    }

    /// An environment with no bindings and nothing printed.
    pub fn new() -> (r: Env)
        ensures
            r@.env == Seq::<(Expr, Expr)>::empty(),
            r@.out == Seq::<Seq<char>>::empty(),
    {
        let r = Env { bindings: Vec::new(), printed: Vec::new() };
        assert(r@.env =~= Seq::<(Expr, Expr)>::empty());
        assert(r@.out =~= Seq::<Seq<char>>::empty());
        r
    }

    /// An environment with the bindings that inserting `pairs` in order
    /// gives, and with `printed` as its printed lines.
    pub fn from_pairs(pairs: &Vec<(Token, Token)>, printed: Vec<String>) -> (r: Env)
        ensures
            r@.env == env_extend(Seq::empty(), pairs_view(pairs@)),
            r@.out == lines_view(printed@),
    {
        let mut r = Env { bindings: Vec::new(), printed };
        let mut i: usize = 0;
        assert(pairs_view(pairs@).subrange(0, 0) =~= Seq::<(Expr, Expr)>::empty());
        assert(r@.env =~= Seq::<(Expr, Expr)>::empty());
        while i < pairs.len()
            invariant
                0 <= i <= pairs.len(),
                r@.env == env_extend(Seq::empty(), pairs_view(pairs@).subrange(0, i as int)),
                r@.out == lines_view(printed@),
            decreases pairs.len() - i,
        {
            let k = clone_token(&pairs[i].0);
            let v = clone_token(&pairs[i].1);
            r.insert(k, v);
            let ghost ps = pairs_view(pairs@).subrange(0, i + 1);
            assert(ps.drop_last() =~= pairs_view(pairs@).subrange(0, i as int));
            i = i + 1;
        }
        assert(pairs_view(pairs@).subrange(0, pairs.len() as int) =~= pairs_view(pairs@));
        r
    }

    /// The index of the first binding of `key`.
    fn position(&self, key: &Token) -> (r: Option<usize>)
        ensures
            match r {
                Some(i) => i < self.bindings.len() && find_key(self@.env, key@) == Some(i as int),
                None => find_key(self@.env, key@) is None,
            },
    {
        let n = self.bindings.len();
        let mut i: usize = 0;
        proof {
            lemma_find_key(self@.env, key@);
        }
        while i < n
            invariant
                n == self.bindings.len(),
                n == self@.env.len(),
                0 <= i <= n,
                self@.env == pairs_view(self.bindings@),
                forall|j: int| 0 <= j < i ==> #[trigger] self@.env[j].0 != key@,
                match find_key(self@.env, key@) {
                    Some(k) => 0 <= k < n && self@.env[k].0 == key@ && forall|j: int|
                        0 <= j < k ==> #[trigger] self@.env[j].0 != key@,
                    None => forall|j: int| 0 <= j < n ==> #[trigger] self@.env[j].0 != key@,
                },
            decreases n - i,
        {
            if token_eq(&self.bindings[i].0, key) {
                assert(self@.env[i as int].0 == key@);
                return Some(i);
            }
            i = i + 1;
        }
        None
    }

    /// Whether `key` is bound.
    pub fn contains_key(&self, key: &Token) -> (r: bool)
        ensures
            r == (env_get(self@.env, key@) is Some),
    {
        self.position(key).is_some()
    }

    /// A copy of the value bound to `key`.
    pub fn get(&self, key: &Token) -> (r: Option<Token>)
        ensures
            match r {
                Some(v) => env_get(self@.env, key@) == Some(v@),
                None => env_get(self@.env, key@) is None,
            },
    {
        match self.position(key) {
            Some(i) => {
                let v = clone_token(&self.bindings[i].1);
                assert(self@.env[i as int].1 == v@);
                Some(v)
            },
            None => None,
        }
    }

    /// Binds `key` to `value`.
    pub fn insert(&mut self, key: Token, value: Token)
        ensures
            final(self)@.env == env_insert(old(self)@.env, key@, value@),
            final(self)@.out == old(self)@.out,
            keys_unique(final(self)@.env),
    {
        proof {
            use_type_invariant(&*self);
            law_insert_keeps_keys_unique(old(self)@.env, key@, value@);
        }
        let ghost k = key@;
        let ghost v = value@;
        let pos = self.position(&key);
        let mut b: Vec<(Token, Token)> = Vec::new();
        std::mem::swap(&mut b, &mut self.bindings);
        match pos {
            Some(i) => {
                b.set(i, (key, value));
            },
            None => {
                b.push((key, value));
            },
        }
        assert(pairs_view(b@) =~= env_insert(old(self)@.env, k, v));
        self.bindings = b;
    }

    /// A copy of the bindings, in order.
    pub fn pairs(&self) -> (r: Vec<(Token, Token)>)
        ensures
            pairs_view(r@) == self@.env,
            keys_unique(pairs_view(r@)),
    {
        proof {
            use_type_invariant(self);
        }
        clone_pairs(&self.bindings)
    }

    /// A copy of the bindings, with no printed lines.
    pub fn clone_bindings(&self) -> (r: Env)
        ensures
            r@.env == self@.env,
            r@.out == Seq::<Seq<char>>::empty(),
    {
        proof {
            use_type_invariant(self);
        }
        let r = Env { bindings: clone_pairs(&self.bindings), printed: Vec::new() };
        assert(r@.out =~= Seq::<Seq<char>>::empty());
        r
    }

    /// A copy of the environment: its bindings and its printed lines.
    pub fn duplicate(&self) -> (r: Env)
        ensures
            r@ == self@,
    {
        proof {
            use_type_invariant(self);
        }
        let mut lines: Vec<String> = Vec::new();
        let mut i: usize = 0;
        while i < self.printed.len()
            invariant
                0 <= i <= self.printed.len(),
                lines_view(lines@) == lines_view(self.printed@).subrange(0, i as int),
            decreases self.printed.len() - i,
        {
            let ghost before = lines@;
            let c = self.printed[i].clone();
            lines.push(c);
            assert(lines_view(lines@) =~= lines_view(before).push(self.printed@[i as int]@));
            assert(lines_view(self.printed@).subrange(0, i + 1) =~= lines_view(self.printed@).subrange(0, i as int).push(self.printed@[i as int]@));
            i = i + 1;
            assert(lines_view(lines@) =~= lines_view(self.printed@).subrange(0, i as int));
        }
        let r = Env { bindings: clone_pairs(&self.bindings), printed: lines };
        assert(lines_view(self.printed@).subrange(0, self.printed.len() as int) =~= lines_view(self.printed@));
        r
    }

    /// Takes the printed lines out, leaving none.
    pub fn take_printed(&mut self) -> (r: Vec<String>)
        ensures
            lines_view(r@) == old(self)@.out,
            final(self)@.env == old(self)@.env,
            final(self)@.out == Seq::<Seq<char>>::empty(),
    {
        proof {
            use_type_invariant(&*self);
        }
        let mut r: Vec<String> = Vec::new();
        std::mem::swap(&mut r, &mut self.printed);
        assert(self@.out =~= Seq::<Seq<char>>::empty());
        r
    }

    /// Puts `lines` back as the printed lines.
    pub fn put_printed(&mut self, lines: Vec<String>)
        ensures
            final(self)@.env == old(self)@.env,
            final(self)@.out == lines_view(lines@),
    {
        proof {
            use_type_invariant(&*self);
        }
        self.printed = lines;
    }

    /// Records a printed line.
    pub fn print_line(&mut self, line: String)
        ensures
            final(self)@.env == old(self)@.env,
            final(self)@.out == old(self)@.out.push(line@),
    {
        proof {
            use_type_invariant(&*self);
        }
        let ghost l = line@;
        let mut lines: Vec<String> = Vec::new();
        std::mem::swap(&mut lines, &mut self.printed);
        lines.push(line);
        self.printed = lines;
        assert(self@.out =~= old(self)@.out.push(l));
    }
}

} // verus!
