//! The stiffness of a single beam element, in its own axes and in those of
//! the frame.

use vstd::prelude::*;
use crate::frames::frame::Element;
use crate::frames::linear::{matrix_view, vector_view};
use crate::frames::matrix::{
    column, column_of, dot_product, has_columns, mat_vec, multiply_matrices,
};
use crate::frames::model::{local_stiffness, rotation_matrix, turned_stiffness};
use crate::numbers::rational::Rational;

verus! {

/// The vector of four given numbers.
fn row_of_four(a: Rational, b: Rational, c: Rational, d: Rational) -> (r: Vec<Rational>)
    ensures
        r.len() == 4,
        vector_view(r@) == seq![a@, b@, c@, d@],
{
    let mut r: Vec<Rational> = Vec::new();
    r.push(a);
    r.push(b);
    r.push(c);
    r.push(d);
    assert(vector_view(r@) =~= seq![a@, b@, c@, d@]);
    r
}

/// The matrix of four given rows of four numbers.
fn matrix_of_four(
    r0: Vec<Rational>,
    r1: Vec<Rational>,
    r2: Vec<Rational>,
    r3: Vec<Rational>,
) -> (m: Vec<Vec<Rational>>)
    requires
        r0.len() == 4,
        r1.len() == 4,
        r2.len() == 4,
        r3.len() == 4,
    ensures
        m.len() == 4,
        has_columns(m@, 4),
        matrix_view(m@) == seq![
            vector_view(r0@),
            vector_view(r1@),
            vector_view(r2@),
            vector_view(r3@),
        ],
{
    let mut m: Vec<Vec<Rational>> = Vec::new();
    m.push(r0);
    m.push(r1);
    m.push(r2);
    m.push(r3);
    assert(matrix_view(m@) =~= seq![
        vector_view(r0@),
        vector_view(r1@),
        vector_view(r2@),
        vector_view(r3@),
    ]);
    m
}

/// The cube of a positive number is not zero.
proof fn lemma_cube_not_zero(l: real)
    requires
        l > 0 as real,
    ensures
        l * l * l != 0 as real,
{
    assert(l * l > 0 as real) by (nonlinear_arith)
        requires
            l > 0 as real,
    ;
    let ll: real = l * l;
    assert(ll * l > 0 as real) by (nonlinear_arith)
        requires
            ll > 0 as real,
            l > 0 as real,
    ;
}

/// The stiffness of the element in its own axes.
pub fn local_stiffness_of(e: &Element) -> (k: Vec<Vec<Rational>>)
    requires
        e@.length > 0 as real,
    ensures
        k.len() == 4,
        has_columns(k@, 4),
        matrix_view(k@) == local_stiffness(e@),
{
    let l: &Rational = &e.length;
    proof {
        lemma_cube_not_zero(l@);
    }
    let factor: Rational = e.material_properties.modulus_of_elasticity.mul(
        &e.material_properties.moment_of_inertia,
    ).div(&l.mul(l).mul(l));
    let a: Rational = Rational::from_int(12).mul(&factor);
    let b: Rational = Rational::from_int(6).mul(&factor).mul(l);
    let c: Rational = Rational::from_int(4).mul(&factor).mul(l).mul(l);
    let d: Rational = Rational::from_int(2).mul(&factor).mul(l).mul(l);
    let r0: Vec<Rational> = row_of_four(a.clone(), b.clone(), a.neg(), b.clone());
    let r1: Vec<Rational> = row_of_four(b.clone(), c.clone(), b.neg(), d.clone());
    let r2: Vec<Rational> = row_of_four(a.neg(), b.neg(), a, b.neg());
    let r3: Vec<Rational> = row_of_four(b.clone(), d, b.neg(), c);
    matrix_of_four(r0, r1, r2, r3)
}

/// The rotation by the angle with cosine `c` and sine `s`.
pub fn rotation_of(c: &Rational, s: &Rational) -> (t: Vec<Vec<Rational>>)
    ensures
        t.len() == 4,
        has_columns(t@, 4),
        matrix_view(t@) == rotation_matrix(c@, s@),
{
    let r0: Vec<Rational> = row_of_four(
        c.clone(),
        s.clone(),
        Rational::from_int(0),
        Rational::from_int(0),
    );
    let r1: Vec<Rational> = row_of_four(
        s.neg(),
        c.clone(),
        Rational::from_int(0),
        Rational::from_int(0),
    );
    let r2: Vec<Rational> = row_of_four(
        Rational::from_int(0),
        Rational::from_int(0),
        c.clone(),
        s.clone(),
    );
    let r3: Vec<Rational> = row_of_four(
        Rational::from_int(0),
        Rational::from_int(0),
        s.neg(),
        c.clone(),
    );
    matrix_of_four(r0, r1, r2, r3)
}

/// The stiffness `k` turned by the rotation `t`: the product of `t`
/// transposed, `k` and `t`.
pub fn turned(t: &Vec<Vec<Rational>>, k: &Vec<Vec<Rational>>) -> (g: Vec<Vec<Rational>>)
    requires
        t.len() == 4,
        has_columns(t@, 4),
        k.len() == 4,
        has_columns(k@, 4),
    ensures
        g.len() == 4,
        has_columns(g@, 4),
        matrix_view(g@) == turned_stiffness(matrix_view(t@), matrix_view(k@)),
{
    let ghost tv: Seq<Seq<real>> = matrix_view(t@);
    let ghost kv: Seq<Seq<real>> = matrix_view(k@);
    let mut columns: Vec<Vec<Rational>> = Vec::new();
    let mut products: Vec<Vec<Rational>> = Vec::new();
    let mut j: usize = 0;
    while j < 4
        invariant
            j <= 4,
            t.len() == 4,
            has_columns(t@, 4),
            k.len() == 4,
            has_columns(k@, 4),
            tv == matrix_view(t@),
            kv == matrix_view(k@),
            columns.len() == j,
            products.len() == j,
            forall|c: int|
                0 <= c < j ==> (#[trigger] columns@[c]).len() == 4 && vector_view(columns@[c]@)
                    == column(tv, c),
            forall|c: int|
                0 <= c < j ==> (#[trigger] products@[c]).len() == 4 && vector_view(
                    products@[c]@,
                ) == mat_vec(kv, column(tv, c)),
        decreases 4 - j,
    {
        let col: Vec<Rational> = column_of(t, j);
        let product: Vec<Rational> = multiply_matrices(k, &col);
        assert(product.len() == 4) by {
            assert(vector_view(product@).len() == 4);
        }
        columns.push(col);
        products.push(product);
        j += 1;
    }
    let mut g: Vec<Vec<Rational>> = Vec::new();
    let mut i: usize = 0;
    while i < 4
        invariant
            i <= 4,
            columns.len() == 4,
            products.len() == 4,
            forall|c: int|
                0 <= c < 4 ==> (#[trigger] columns@[c]).len() == 4 && vector_view(columns@[c]@)
                    == column(tv, c),
            forall|c: int|
                0 <= c < 4 ==> (#[trigger] products@[c]).len() == 4 && vector_view(
                    products@[c]@,
                ) == mat_vec(kv, column(tv, c)),
            g.len() == i,
            has_columns(g@, 4),
            forall|r: int|
                0 <= r < i ==> vector_view(#[trigger] g@[r]@) == turned_stiffness(tv, kv)[r],
        decreases 4 - i,
    {
        let mut row: Vec<Rational> = Vec::new();
        let mut c: usize = 0;
        while c < 4
            invariant
                c <= 4,
                i < 4,
                columns.len() == 4,
                products.len() == 4,
                forall|x: int|
                    0 <= x < 4 ==> (#[trigger] columns@[x]).len() == 4 && vector_view(
                        columns@[x]@,
                    ) == column(tv, x),
                forall|x: int|
                    0 <= x < 4 ==> (#[trigger] products@[x]).len() == 4 && vector_view(
                        products@[x]@,
                    ) == mat_vec(kv, column(tv, x)),
                row.len() == c,
                forall|x: int|
                    0 <= x < c ==> #[trigger] row@[x]@ == turned_stiffness(tv, kv)[i as int][x],
            decreases 4 - c,
        {
            let entry: Rational = dot_product(&columns[i], &products[c]);
            row.push(entry);
            c += 1;
        }
        assert(vector_view(row@) =~= turned_stiffness(tv, kv)[i as int]);
        g.push(row);
        i += 1;
    }
    assert(matrix_view(g@) =~= turned_stiffness(tv, kv));
    g
}

} // verus!
