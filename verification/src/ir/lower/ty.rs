//! The generics in scope while lowering a type, and the names under which
//! types still being inferred are shown.
use vstd::prelude::*;

use crate::ir::Ty;
use crate::text::string_of;

verus! {

/// A generic parameter and the type it stands for.
#[derive(Debug)]
pub struct Generic {
    pub name: &'static str,
    pub ty: Ty,
}

/// The generics in scope: fixed by a definition, or gathered as they are
/// met.
#[derive(Debug)]
pub enum Generics<'a> {
    Static(&'a [Generic]),
    Dynamic(Vec<Generic>),
}

impl Generics<'_> {
    /// No generics yet, more to be gathered.
    pub fn dynamic() -> (r: Self)
        ensures
            r matches Generics::Dynamic(v) && v@.len() == 0,
    {
        Generics::Dynamic(Vec::new())
    }

    /// The generics, in order.
    pub fn as_slice(&self) -> (r: &[Generic])
        ensures
            r@ == match self {
                Generics::Static(s) => s@,
                Generics::Dynamic(v) => v@,
            },
    {
        match self {
            Generics::Static(generics) => generics,
            Generics::Dynamic(generics) => generics.as_slice(),
        }
    }
}

/// The `k`-th lower-case letter.
pub open spec fn letter(k: nat) -> char {
    (97 + k) as char
}

/// The name of the positive number `i` in bijective base 26 over `a` to
/// `z`: `a` to `z` for one to 26, then `aa`, `ab`, and so on; empty for
/// zero.
pub open spec fn letters_name(i: nat) -> Seq<char>
    decreases i,
{
    if i == 0 {
        Seq::empty()
    } else {
        letters_name(((i - 1) / 26) as nat).push(letter(((i - 1) % 26) as nat))
    }
}

/// What is gathered about a type still being inferred when showing a type:
/// whether it refers to itself, how often it occurs, and its name.
#[derive(Debug)]
pub struct BoundsInfo {
    pub recursive: bool,
    pub occurences: usize,
    pub name: String,
}

impl BoundsInfo {
    /// The information of the `n`-th such type met: not yet known to be
    /// recursive, not yet counted, named after `n`.
    pub fn new(n: usize) -> (r: Self)
        requires
            n < usize::MAX,
        ensures
            !r.recursive,
            r.occurences == 0,
            r.name@ == letters_name(n as nat + 1),
    {
        BoundsInfo { recursive: false, occurences: 0, name: Self::generate_name(n) }
    }

    /// The name of the `index`-th type: `a`, `b`, ..., `z`, `aa`, `ab`, ...
    pub fn generate_name(index: usize) -> (r: String)
        requires
            index < usize::MAX,
        ensures
            r@ == letters_name(index as nat + 1),
    {
        let mut reversed: Vec<char> = Vec::new();
        let mut i = index + 1;
        while i > 0
            invariant
                letters_name(index as nat + 1) == letters_name(i as nat) + reversed@.reverse(),
            decreases i,
        {
            let k = (i - 1) % 26;
            let c = (97u8 + k as u8) as char;
            assert(c == letter(k as nat));
            let ghost before = reversed@;
            reversed.push(c);
            assert(reversed@.reverse() =~= seq![c] + before.reverse());
            assert(letters_name(i as nat) == letters_name(((i - 1) / 26) as nat).push(c));
            assert(letters_name(((i - 1) / 26) as nat).push(c) + before.reverse() =~= letters_name(
                ((i - 1) / 26) as nat,
            ) + (seq![c] + before.reverse()));
            i = (i - 1) / 26;
        }
        let mut chars: Vec<char> = Vec::new();
        let mut j = reversed.len();
        while j > 0
            invariant
                j <= reversed@.len(),
                chars@ == reversed@.reverse().take((reversed@.len() - j) as int),
            decreases j,
        {
            j = j - 1;
            let ghost before = chars@;
            chars.push(reversed[j]);
            assert(reversed@.reverse().take((reversed@.len() - j) as int) =~= before.push(
                reversed@[j as int],
            ));
        }
        assert(reversed@.reverse().take(reversed@.len() as int) =~= reversed@.reverse());
        assert(letters_name(0) =~= Seq::<char>::empty());
        assert(Seq::<char>::empty() + reversed@.reverse() =~= reversed@.reverse());
        string_of(chars.as_slice())
    }
}

/// Different numbers have different names: the names of bijective base 26
/// never collide.
proof fn lemma_letters_name_injective(x: nat, y: nat)
    requires
        letters_name(x) == letters_name(y),
    ensures
        x == y,
    decreases x + y,
{
    if x == 0 || y == 0 {
        if x != 0 {
            assert(letters_name(y) =~= Seq::<char>::empty());
            assert(letters_name(x).len() == letters_name(((x - 1) / 26) as nat).len() + 1);
        }
        if y != 0 {
            assert(letters_name(x) =~= Seq::<char>::empty());
            assert(letters_name(y).len() == letters_name(((y - 1) / 26) as nat).len() + 1);
        }
    } else {
        let qx = ((x - 1) / 26) as nat;
        let qy = ((y - 1) / 26) as nat;
        let rx = ((x - 1) % 26) as nat;
        let ry = ((y - 1) % 26) as nat;
        assert(letters_name(x).last() == letter(rx));
        assert(letters_name(y).last() == letter(ry));
        assert(rx == ry);
        assert(letters_name(x).drop_last() =~= letters_name(qx));
        assert(letters_name(y).drop_last() =~= letters_name(qy));
        lemma_letters_name_injective(qx, qy);
    }
}

/// Each type still being inferred gets its own name: the names generated
/// for two different indices differ.
pub proof fn law_generated_names_distinct(a: nat, b: nat)
    requires
        a != b,
    ensures
        letters_name(a + 1) != letters_name(b + 1),
{
    if letters_name(a + 1) == letters_name(b + 1) {
        lemma_letters_name_injective(a + 1, b + 1);
    }
}

} // verus!
