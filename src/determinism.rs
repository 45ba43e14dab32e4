use vstd::prelude::*;
use crate::matrix::{
    Matrix, Scalar, is_column, lemma_mapped_unique, lemma_product_unique, lemma_transposed_unique, lemma_zipped_unique,
    mapped, multiply_add, product, same, scaled_by, transposed, unique1, unique2, unique3, zipped,
};
use crate::network::{
    Activation, backward_pass, backward_run, backward_step, fits_layers, forward_pass, layer_output, training_run,
    training_step,
};

verus! {

/// The scalar operations and the activation pair give at most one result for
/// given arguments, as pure functions do.
pub open spec fn functional_ops<T: Scalar, A: Activation<T>>() -> bool {
    &&& forall|r1: T, r2: T| #[trigger] call_ensures(T::zero, (), r1) && #[trigger] call_ensures(T::zero, (), r2) ==> r1 == r2
    &&& unique2(T::plus)
    &&& unique2(T::minus)
    &&& unique2(T::times)
    &&& unique1(A::function)
    &&& unique1(A::derivative)
}

/// The matrices of `a` and `b` agree one by one in shape and entries.
pub open spec fn same_all<T>(a: Seq<Matrix<T>>, b: Seq<Matrix<T>>) -> bool {
    a.len() == b.len() && forall|i: int| 0 <= i < a.len() ==> same(#[trigger] a[i], b[i])
}

proof fn lemma_multiply_add_unique<T: Scalar, A: Activation<T>>()
    requires
        functional_ops::<T, A>(),
    ensures
        unique3(multiply_add::<T>),
{
    assert forall|s: T, x: T, y: T, r1: T, r2: T|
        #[trigger] call_ensures(multiply_add::<T>, (s, x, y), r1) && #[trigger] call_ensures(
            multiply_add::<T>,
            (s, x, y),
            r2,
        ) implies r1 == r2 by {
        let p1 = choose|p: T| call_ensures(T::times, (x, y), p) && #[trigger] call_ensures(T::plus, (s, p), r1);
        let p2 = choose|p: T| call_ensures(T::times, (x, y), p) && #[trigger] call_ensures(T::plus, (s, p), r2);
        assert(p1 == p2);
    }
}

proof fn lemma_layer_unique<T: Scalar, A: Activation<T>>(
    w1: Matrix<T>,
    w2: Matrix<T>,
    b1: Matrix<T>,
    b2: Matrix<T>,
    a1: Matrix<T>,
    a2: Matrix<T>,
    next1: Matrix<T>,
    next2: Matrix<T>,
)
    requires
        functional_ops::<T, A>(),
        same(w1, w2),
        same(b1, b2),
        same(a1, a2),
        layer_output::<T, A>(w1, b1, a1, next1),
        layer_output::<T, A>(w2, b2, a2, next2),
    ensures
        same(next1, next2),
        next1.wf(),
{
    lemma_multiply_add_unique::<T, A>();
    let (z1, p1, s1) = choose|z: T, p: Matrix<T>, s: Matrix<T>|
        #![trigger product(w1, a1, z, multiply_add::<T>, p), zipped(p, b1, T::plus, s)]
        call_ensures(T::zero, (), z) && product(w1, a1, z, multiply_add::<T>, p) && zipped(p, b1, T::plus, s)
            && mapped(s, A::function, next1);
    let (z2, p2, s2) = choose|z: T, p: Matrix<T>, s: Matrix<T>|
        #![trigger product(w2, a2, z, multiply_add::<T>, p), zipped(p, b2, T::plus, s)]
        call_ensures(T::zero, (), z) && product(w2, a2, z, multiply_add::<T>, p) && zipped(p, b2, T::plus, s)
            && mapped(s, A::function, next2);
    assert(z1 == z2);
    lemma_product_unique(w1, w2, a1, a2, z1, multiply_add::<T>, p1, p2);
    lemma_zipped_unique(p1, p2, b1, b2, T::plus, s1, s2);
    lemma_mapped_unique(s1, s2, A::function, next1, next2);
}

proof fn lemma_columns_same<T>(a: Matrix<T>, b: Matrix<T>, s: Seq<T>)
    requires
        is_column(a, s),
        is_column(b, s),
    ensures
        same(a, b),
{
    assert forall|i: int| 0 <= i < a.rows implies #[trigger] a@[i] == b@[i] by {
        assert(a@[i] =~= b@[i]);
    }
    assert(a@ =~= b@);
}

proof fn lemma_forward_prefix<T: Scalar, A: Activation<T>>(
    weights1: Seq<Matrix<T>>,
    biases1: Seq<Matrix<T>>,
    weights2: Seq<Matrix<T>>,
    biases2: Seq<Matrix<T>>,
    inputs: Seq<T>,
    data1: Seq<Matrix<T>>,
    out1: Seq<T>,
    data2: Seq<Matrix<T>>,
    out2: Seq<T>,
    k: int,
)
    requires
        functional_ops::<T, A>(),
        same_all(weights1, weights2),
        same_all(biases1, biases2),
        biases1.len() == weights1.len(),
        forward_pass::<T, A>(weights1, biases1, data1, inputs, out1),
        forward_pass::<T, A>(weights2, biases2, data2, inputs, out2),
        0 <= k <= weights1.len(),
    ensures
        same(data1[k], data2[k]),
        data1[k].wf(),
    decreases k,
{
    if k == 0 {
        lemma_columns_same(data1[0], data2[0], inputs);
    } else {
        let l = k - 1;
        lemma_forward_prefix::<T, A>(weights1, biases1, weights2, biases2, inputs, data1, out1, data2, out2, l);
        assert(layer_output::<T, A>(weights1[l], biases1[l], data1[l], data1[l + 1]));
        assert(layer_output::<T, A>(weights2[l], biases2[l], data2[l], data2[l + 1]));
        assert(same(weights1[l], weights2[l]) && same(biases1[l], biases2[l]));
        lemma_layer_unique::<T, A>(
            weights1[l],
            weights2[l],
            biases1[l],
            biases2[l],
            data1[l],
            data2[l],
            data1[l + 1],
            data2[l + 1],
        );
    }
}

/// Where the scalar operations and the activation pair are functions of their
/// arguments, a forward pass is determined by the weights, the biases and the
/// inputs: two networks whose weights and biases agree in shape and entries
/// cache activations that agree and return the same outputs.
pub proof fn lemma_forward_deterministic<T: Scalar, A: Activation<T>>(
    weights1: Seq<Matrix<T>>,
    biases1: Seq<Matrix<T>>,
    weights2: Seq<Matrix<T>>,
    biases2: Seq<Matrix<T>>,
    inputs: Seq<T>,
    data1: Seq<Matrix<T>>,
    out1: Seq<T>,
    data2: Seq<Matrix<T>>,
    out2: Seq<T>,
)
    requires
        functional_ops::<T, A>(),
        same_all(weights1, weights2),
        same_all(biases1, biases2),
        biases1.len() == weights1.len(),
        forward_pass::<T, A>(weights1, biases1, data1, inputs, out1),
        forward_pass::<T, A>(weights2, biases2, data2, inputs, out2),
    ensures
        out1 == out2,
        same_all(data1, data2),
        forall|i: int| 0 <= i < data1.len() ==> (#[trigger] data1[i]).wf(),
{
    let n = weights1.len() as int;
    assert forall|i: int| 0 <= i < data1.len() implies same(#[trigger] data1[i], data2[i]) && data1[i].wf() by {
        lemma_forward_prefix::<T, A>(weights1, biases1, weights2, biases2, inputs, data1, out1, data2, out2, i);
    }
    let last1 = data1.last();
    let last2 = data2.last();
    assert(last1 == data1[n] && last2 == data2[n]);
    assert(same(last1, last2));
    assert forall|i: int| 0 <= i < out1.len() implies #[trigger] out1[i] == out2[i] by {
        assert(out1[i] == last1@[i][0]);
        assert(out2[i] == last2@[i][0]);
    }
    assert(out1 =~= out2);
}

proof fn lemma_scaled_unique<T: Scalar, A: Activation<T>>(a1: Matrix<T>, a2: Matrix<T>, k: T, r1: Matrix<T>, r2: Matrix<T>)
    requires
        functional_ops::<T, A>(),
        a1.wf(),
        same(a1, a2),
        scaled_by(a1, k, r1),
        scaled_by(a2, k, r2),
    ensures
        same(r1, r2),
{
    assert forall|i: int| 0 <= i < r1.rows implies #[trigger] r1@[i] == r2@[i] by {
        assert forall|j: int| 0 <= j < r1.cols implies #[trigger] r1@[i][j] == r2@[i][j] by {
            assert(call_ensures(T::times, (a1@[i][j], k), r1@[i][j]));
            assert(call_ensures(T::times, (a1@[i][j], k), r2@[i][j]));
        }
        assert(r1@[i] =~= r2@[i]);
    }
    assert(r1@ =~= r2@);
}

proof fn lemma_backward_step_unique<T: Scalar, A: Activation<T>>(
    w_1: Matrix<T>,
    b_1: Matrix<T>,
    below_1: Matrix<T>,
    w_2: Matrix<T>,
    b_2: Matrix<T>,
    below_2: Matrix<T>,
    rate: T,
    err1: Matrix<T>,
    grad1: Matrix<T>,
    w2_1: Matrix<T>,
    b2_1: Matrix<T>,
    err2_1: Matrix<T>,
    grad2_1: Matrix<T>,
    err2: Matrix<T>,
    grad2: Matrix<T>,
    w2_2: Matrix<T>,
    b2_2: Matrix<T>,
    err2_2: Matrix<T>,
    grad2_2: Matrix<T>,
)
    requires
        functional_ops::<T, A>(),
        w_1.wf(),
        b_1.wf(),
        below_1.wf(),
        grad1.wf(),
        same(w_1, w_2),
        same(b_1, b_2),
        same(below_1, below_2),
        same(err1, err2),
        same(grad1, grad2),
        backward_step::<T, A>(w_1, b_1, below_1, rate, err1, grad1, w2_1, b2_1, err2_1, grad2_1),
        backward_step::<T, A>(w_2, b_2, below_2, rate, err2, grad2, w2_2, b2_2, err2_2, grad2_2),
    ensures
        same(w2_1, w2_2),
        same(b2_1, b2_2),
        same(err2_1, err2_2),
        same(grad2_1, grad2_2),
        err2_1.wf(),
        grad2_1.wf(),
{
    lemma_multiply_add_unique::<T, A>();
    let (g1, sc1, bt1, z1, d1, wt1, y1) = choose|g: Matrix<T>, scaled: Matrix<T>, bt: Matrix<T>, z1: T, delta: Matrix<T>, wt: Matrix<T>, z2: T|
        #![trigger zipped(grad1, err1, T::times, g), scaled_by(g, rate, scaled), transposed(below_1, bt), product(scaled, bt, z1, multiply_add::<T>, delta), transposed(w2_1, wt), product(wt, err1, z2, multiply_add::<T>, err2_1)]
        {
            &&& zipped(grad1, err1, T::times, g)
            &&& scaled_by(g, rate, scaled)
            &&& transposed(below_1, bt)
            &&& call_ensures(T::zero, (), z1)
            &&& product(scaled, bt, z1, multiply_add::<T>, delta)
            &&& zipped(w_1, delta, T::plus, w2_1)
            &&& zipped(b_1, scaled, T::plus, b2_1)
            &&& transposed(w2_1, wt)
            &&& call_ensures(T::zero, (), z2)
            &&& product(wt, err1, z2, multiply_add::<T>, err2_1)
        };
    let (g2, sc2, bt2, z3, d2, wt2, y2) = choose|g: Matrix<T>, scaled: Matrix<T>, bt: Matrix<T>, z1: T, delta: Matrix<T>, wt: Matrix<T>, z2: T|
        #![trigger zipped(grad2, err2, T::times, g), scaled_by(g, rate, scaled), transposed(below_2, bt), product(scaled, bt, z1, multiply_add::<T>, delta), transposed(w2_2, wt), product(wt, err2, z2, multiply_add::<T>, err2_2)]
        {
            &&& zipped(grad2, err2, T::times, g)
            &&& scaled_by(g, rate, scaled)
            &&& transposed(below_2, bt)
            &&& call_ensures(T::zero, (), z1)
            &&& product(scaled, bt, z1, multiply_add::<T>, delta)
            &&& zipped(w_2, delta, T::plus, w2_2)
            &&& zipped(b_2, scaled, T::plus, b2_2)
            &&& transposed(w2_2, wt)
            &&& call_ensures(T::zero, (), z2)
            &&& product(wt, err2, z2, multiply_add::<T>, err2_2)
        };
    assert(z1 == z3 && z1 == y1 && y1 == y2);
    lemma_zipped_unique(grad1, grad2, err1, err2, T::times, g1, g2);
    lemma_scaled_unique::<T, A>(g1, g2, rate, sc1, sc2);
    lemma_transposed_unique(below_1, below_2, bt1, bt2);
    lemma_product_unique(sc1, sc2, bt1, bt2, z1, multiply_add::<T>, d1, d2);
    lemma_zipped_unique(w_1, w_2, d1, d2, T::plus, w2_1, w2_2);
    lemma_zipped_unique(b_1, b_2, sc1, sc2, T::plus, b2_1, b2_2);
    lemma_transposed_unique(w2_1, w2_2, wt1, wt2);
    lemma_product_unique(wt1, wt2, err1, err2, y1, multiply_add::<T>, err2_1, err2_2);
    lemma_mapped_unique(below_1, below_2, A::derivative, grad2_1, grad2_2);
}

proof fn lemma_backward_suffix<T: Scalar, A: Activation<T>>(
    layers: Seq<usize>,
    weights1: Seq<Matrix<T>>,
    biases1: Seq<Matrix<T>>,
    data1: Seq<Matrix<T>>,
    weights2: Seq<Matrix<T>>,
    biases2: Seq<Matrix<T>>,
    data2: Seq<Matrix<T>>,
    rate: T,
    outputs: Seq<T>,
    targets: Seq<T>,
    new_weights1: Seq<Matrix<T>>,
    new_biases1: Seq<Matrix<T>>,
    errs1: Seq<Matrix<T>>,
    grads1: Seq<Matrix<T>>,
    new_weights2: Seq<Matrix<T>>,
    new_biases2: Seq<Matrix<T>>,
    errs2: Seq<Matrix<T>>,
    grads2: Seq<Matrix<T>>,
    k: int,
)
    requires
        functional_ops::<T, A>(),
        fits_layers(layers, weights1, biases1),
        same_all(weights1, weights2),
        same_all(biases1, biases2),
        same_all(data1, data2),
        data1.len() == layers.len(),
        forall|i: int| 0 <= i < data1.len() ==> (#[trigger] data1[i]).wf(),
        backward_run::<T, A>(weights1, biases1, data1, rate, outputs, targets, new_weights1, new_biases1, errs1, grads1),
        backward_run::<T, A>(weights2, biases2, data2, rate, outputs, targets, new_weights2, new_biases2, errs2, grads2),
        0 <= k <= weights1.len(),
    ensures
        same(errs1[k], errs2[k]),
        same(grads1[k], grads2[k]),
        grads1[k].wf(),
        forall|i: int| k <= i < weights1.len() ==> same(#[trigger] new_weights1[i], new_weights2[i]),
        forall|i: int| k <= i < weights1.len() ==> same(#[trigger] new_biases1[i], new_biases2[i]),
    decreases weights1.len() - k,
{
    let n = weights1.len() as int;
    if k == n {
        let (oc1, tc1) = choose|oc: Matrix<T>, tc: Matrix<T>|
            #![trigger is_column(oc, outputs), is_column(tc, targets)]
            {
                &&& is_column(oc, outputs)
                &&& is_column(tc, targets)
                &&& zipped(tc, oc, T::minus, errs1[n])
                &&& mapped(oc, A::derivative, grads1[n])
            };
        let (oc2, tc2) = choose|oc: Matrix<T>, tc: Matrix<T>|
            #![trigger is_column(oc, outputs), is_column(tc, targets)]
            {
                &&& is_column(oc, outputs)
                &&& is_column(tc, targets)
                &&& zipped(tc, oc, T::minus, errs2[n])
                &&& mapped(oc, A::derivative, grads2[n])
            };
        lemma_columns_same(oc1, oc2, outputs);
        lemma_columns_same(tc1, tc2, targets);
        lemma_zipped_unique(tc1, tc2, oc1, oc2, T::minus, errs1[n], errs2[n]);
        lemma_mapped_unique(oc1, oc2, A::derivative, grads1[n], grads2[n]);
    } else {
        lemma_backward_suffix::<T, A>(
            layers, weights1, biases1, data1, weights2, biases2, data2, rate, outputs, targets,
            new_weights1, new_biases1, errs1, grads1,
            new_weights2, new_biases2, errs2, grads2,
            k + 1,
        );
        assert(backward_step::<T, A>(
            weights1[k], biases1[k], data1[k], rate, errs1[k + 1], grads1[k + 1],
            new_weights1[k], new_biases1[k], errs1[k], grads1[k],
        ));
        assert(backward_step::<T, A>(
            weights2[k], biases2[k], data2[k], rate, errs2[k + 1], grads2[k + 1],
            new_weights2[k], new_biases2[k], errs2[k], grads2[k],
        ));
        assert(same(weights1[k], weights2[k]) && same(biases1[k], biases2[k]) && same(data1[k], data2[k]));
        lemma_backward_step_unique::<T, A>(
            weights1[k], biases1[k], data1[k], weights2[k], biases2[k], data2[k], rate,
            errs1[k + 1], grads1[k + 1], new_weights1[k], new_biases1[k], errs1[k], grads1[k],
            errs2[k + 1], grads2[k + 1], new_weights2[k], new_biases2[k], errs2[k], grads2[k],
        );
    }
}

/// Where the scalar operations and the activation pair are functions of their
/// arguments, a backward pass is determined by the weights, the biases, the
/// cached activations, the learning rate, the outputs and the targets: two
/// networks that agree on those, in shape and entries, end with weights and
/// biases that agree.
pub proof fn lemma_backward_deterministic<T: Scalar, A: Activation<T>>(
    layers: Seq<usize>,
    weights1: Seq<Matrix<T>>,
    biases1: Seq<Matrix<T>>,
    data1: Seq<Matrix<T>>,
    weights2: Seq<Matrix<T>>,
    biases2: Seq<Matrix<T>>,
    data2: Seq<Matrix<T>>,
    rate: T,
    outputs: Seq<T>,
    targets: Seq<T>,
    new_weights1: Seq<Matrix<T>>,
    new_biases1: Seq<Matrix<T>>,
    new_weights2: Seq<Matrix<T>>,
    new_biases2: Seq<Matrix<T>>,
)
    requires
        functional_ops::<T, A>(),
        fits_layers(layers, weights1, biases1),
        same_all(weights1, weights2),
        same_all(biases1, biases2),
        same_all(data1, data2),
        data1.len() == layers.len(),
        forall|i: int| 0 <= i < data1.len() ==> (#[trigger] data1[i]).wf(),
        backward_pass::<T, A>(weights1, biases1, data1, rate, outputs, targets, new_weights1, new_biases1),
        backward_pass::<T, A>(weights2, biases2, data2, rate, outputs, targets, new_weights2, new_biases2),
    ensures
        same_all(new_weights1, new_weights2),
        same_all(new_biases1, new_biases2),
        fits_layers(layers, new_weights1, new_biases1),
{
    let (errs1, grads1) = choose|errs: Seq<Matrix<T>>, grads: Seq<Matrix<T>>|
        #[trigger] backward_run::<T, A>(weights1, biases1, data1, rate, outputs, targets, new_weights1, new_biases1, errs, grads);
    let (errs2, grads2) = choose|errs: Seq<Matrix<T>>, grads: Seq<Matrix<T>>|
        #[trigger] backward_run::<T, A>(weights2, biases2, data2, rate, outputs, targets, new_weights2, new_biases2, errs, grads);
    lemma_backward_suffix::<T, A>(
        layers, weights1, biases1, data1, weights2, biases2, data2, rate, outputs, targets,
        new_weights1, new_biases1, errs1, grads1,
        new_weights2, new_biases2, errs2, grads2,
        0,
    );
    lemma_backward_shapes::<T, A>(layers, weights1, biases1, data1, rate, outputs, targets, new_weights1, new_biases1, errs1, grads1);
}

proof fn lemma_backward_shapes<T: Scalar, A: Activation<T>>(
    layers: Seq<usize>,
    weights: Seq<Matrix<T>>,
    biases: Seq<Matrix<T>>,
    data: Seq<Matrix<T>>,
    rate: T,
    outputs: Seq<T>,
    targets: Seq<T>,
    new_weights: Seq<Matrix<T>>,
    new_biases: Seq<Matrix<T>>,
    errs: Seq<Matrix<T>>,
    grads: Seq<Matrix<T>>,
)
    requires
        fits_layers(layers, weights, biases),
        backward_run::<T, A>(weights, biases, data, rate, outputs, targets, new_weights, new_biases, errs, grads),
    ensures
        fits_layers(layers, new_weights, new_biases),
{
    assert forall|i: int| 0 <= i < layers.len() - 1 implies {
        &&& (#[trigger] new_weights[i]).wf()
        &&& new_weights[i].rows == layers[i + 1]
        &&& new_weights[i].cols == layers[i]
    } by {
        assert(backward_step::<T, A>(
            weights[i], biases[i], data[i], rate, errs[i + 1], grads[i + 1],
            new_weights[i], new_biases[i], errs[i], grads[i],
        ));
        assert(weights[i].wf());
    }
    assert forall|i: int| 0 <= i < layers.len() - 1 implies {
        &&& (#[trigger] new_biases[i]).wf()
        &&& new_biases[i].rows == layers[i + 1]
        &&& new_biases[i].cols == 1
    } by {
        assert(backward_step::<T, A>(
            weights[i], biases[i], data[i], rate, errs[i + 1], grads[i + 1],
            new_weights[i], new_biases[i], errs[i], grads[i],
        ));
        assert(biases[i].wf());
    }
}

proof fn lemma_training_prefix<T: Scalar, A: Activation<T>>(
    layers: Seq<usize>,
    inputs: Seq<Vec<T>>,
    targets: Seq<Vec<T>>,
    epochs: int,
    rate: T,
    w0: Seq<Matrix<T>>,
    b0: Seq<Matrix<T>>,
    ws1: Seq<Seq<Matrix<T>>>,
    bs1: Seq<Seq<Matrix<T>>>,
    w_end1: Seq<Matrix<T>>,
    b_end1: Seq<Matrix<T>>,
    ws2: Seq<Seq<Matrix<T>>>,
    bs2: Seq<Seq<Matrix<T>>>,
    w_end2: Seq<Matrix<T>>,
    b_end2: Seq<Matrix<T>>,
    k: int,
)
    requires
        functional_ops::<T, A>(),
        fits_layers(layers, w0, b0),
        training_run::<T, A>(ws1, bs1, inputs, targets, epochs, rate, w0, b0, w_end1, b_end1),
        training_run::<T, A>(ws2, bs2, inputs, targets, epochs, rate, w0, b0, w_end2, b_end2),
        0 <= k < ws1.len(),
    ensures
        same_all(ws1[k], ws2[k]),
        same_all(bs1[k], bs2[k]),
        fits_layers(layers, ws1[k], bs1[k]),
    decreases k,
{
    if k == 0 {
        assert forall|i: int| 0 <= i < w0.len() implies same(#[trigger] w0[i], w0[i]) by {}
        assert forall|i: int| 0 <= i < b0.len() implies same(#[trigger] b0[i], b0[i]) by {}
    } else {
        let t = k - 1;
        lemma_training_prefix::<T, A>(
            layers, inputs, targets, epochs, rate, w0, b0,
            ws1, bs1, w_end1, b_end1, ws2, bs2, w_end2, b_end2, t,
        );
        let input = inputs[t % inputs.len() as int]@;
        let target = targets[t % inputs.len() as int]@;
        assert(training_step::<T, A>(ws1[t], bs1[t], input, target, rate, ws1[t + 1], bs1[t + 1]));
        assert(training_step::<T, A>(ws2[t], bs2[t], input, target, rate, ws2[t + 1], bs2[t + 1]));
        let (data1, out1) = choose|data: Seq<Matrix<T>>, out: Seq<T>|
            #[trigger] forward_pass::<T, A>(ws1[t], bs1[t], data, input, out) && backward_pass::<T, A>(
                ws1[t], bs1[t], data, rate, out, target, ws1[t + 1], bs1[t + 1],
            );
        let (data2, out2) = choose|data: Seq<Matrix<T>>, out: Seq<T>|
            #[trigger] forward_pass::<T, A>(ws2[t], bs2[t], data, input, out) && backward_pass::<T, A>(
                ws2[t], bs2[t], data, rate, out, target, ws2[t + 1], bs2[t + 1],
            );
        lemma_forward_deterministic::<T, A>(ws1[t], bs1[t], ws2[t], bs2[t], input, data1, out1, data2, out2);
        lemma_backward_deterministic::<T, A>(
            layers, ws1[t], bs1[t], data1, ws2[t], bs2[t], data2, rate, out1, target,
            ws1[t + 1], bs1[t + 1], ws2[t + 1], bs2[t + 1],
        );
    }
}

/// Where the scalar operations and the activation pair are functions of their
/// arguments, training is determined by the starting weights and biases, the
/// examples, the number of epochs and the learning rate: two networks that
/// start from the same weights and biases and train alike end with weights
/// and biases that agree in shape and entries.
pub proof fn lemma_training_deterministic<T: Scalar, A: Activation<T>>(
    layers: Seq<usize>,
    inputs: Seq<Vec<T>>,
    targets: Seq<Vec<T>>,
    epochs: int,
    rate: T,
    w0: Seq<Matrix<T>>,
    b0: Seq<Matrix<T>>,
    ws1: Seq<Seq<Matrix<T>>>,
    bs1: Seq<Seq<Matrix<T>>>,
    w_end1: Seq<Matrix<T>>,
    b_end1: Seq<Matrix<T>>,
    ws2: Seq<Seq<Matrix<T>>>,
    bs2: Seq<Seq<Matrix<T>>>,
    w_end2: Seq<Matrix<T>>,
    b_end2: Seq<Matrix<T>>,
)
    requires
        functional_ops::<T, A>(),
        fits_layers(layers, w0, b0),
        0 <= epochs,
        training_run::<T, A>(ws1, bs1, inputs, targets, epochs, rate, w0, b0, w_end1, b_end1),
        training_run::<T, A>(ws2, bs2, inputs, targets, epochs, rate, w0, b0, w_end2, b_end2),
    ensures
        same_all(w_end1, w_end2),
        same_all(b_end1, b_end2),
{
    let n = inputs.len() as int;
    assert(epochs * n >= 0) by (nonlinear_arith)
        requires
            0 <= epochs,
            0 <= n,
    ;
    lemma_training_prefix::<T, A>(
        layers, inputs, targets, epochs, rate, w0, b0,
        ws1, bs1, w_end1, b_end1, ws2, bs2, w_end2, b_end2, ws1.len() - 1,
    );
}

} // verus!
