//! Continuation-passing style written by hand: what the engine's output does,
//! on a small example that can be verified as it stands.

use vstd::prelude::*;

verus! {

/// The innermost value of the example.
#[derive(Clone, Copy, PartialEq, Eq, Debug)]
pub struct Bar {
    pub value: u32,
}

/// Holds a `Bar`.
#[derive(Clone, Copy, PartialEq, Eq, Debug)]
pub struct Foo {
    pub bar: Bar,
}

/// Holds a `Foo`.
#[derive(Clone, Copy, PartialEq, Eq, Debug)]
pub struct Struct {
    pub foo: Foo,
}

impl Struct {
    /// Hands a borrow of the innermost value to the continuation, and returns
    /// what the continuation returns.
    pub fn with_bar<R>(&self, ret: impl FnOnce(&Bar) -> R) -> (r: R)
        requires
            call_requires(ret, (&self.foo.bar,)),
        ensures
            call_ensures(ret, (&self.foo.bar,), r),
    {
        let foo = &self.foo;
        let bar = &foo.bar;
        ret(bar)
    }
}

/// The sum of the innermost values of the first `n` of the given structs.
pub open spec fn total(cells: Seq<Struct>, n: nat) -> nat
    decreases n,
{
    if n == 0 || n > cells.len() {
        0
    } else {
        total(cells, (n - 1) as nat) + cells[n - 1].foo.bar.value as nat
    }
}

/// The sum of the innermost values, each reached through `with_bar`.
pub fn sum(cells: &Vec<Struct>) -> (r: u128)
    ensures
        r == total(cells@, cells.len() as nat),
{
    let mut acc: u128 = 0;
    let mut i: usize = 0;
    while i < cells.len()
        invariant
            i <= cells.len(),
            acc == total(cells@, i as nat),
            acc <= i * 0xffff_ffff,
        decreases cells.len() - i,
    {
        let so_far = acc;
        let add = |bar: &Bar| -> (next: u128)
            requires
                so_far <= 0xffff_ffff_ffff_ffff * 0xffff_ffff,
            ensures
                next == so_far + bar.value,
            { so_far + bar.value as u128 };
        assert(so_far <= 0xffff_ffff_ffff_ffff * 0xffff_ffff) by (nonlinear_arith)
            requires
                so_far <= i * 0xffff_ffff,
                i <= 0xffff_ffff_ffff_ffff,
        ;
        acc = cells[i].with_bar(add);
        i += 1;
        assert(acc <= i * 0xffff_ffff) by (nonlinear_arith)
            requires
                acc <= (i - 1) * 0xffff_ffff + 0xffff_ffff,
        ;
    }
    acc
}

} // verus!
