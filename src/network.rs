use vstd::prelude::*;
use vstd::arithmetic::div_mod::lemma_fundamental_div_mod_converse_mod;
use crate::matrix::{Matrix, Scalar, ShapeMismatch, is_column, mapped, multiply_add, product, scaled_by, transposed, zipped};

verus! {

/// A forward nonlinearity and its derivative, applied entry by entry.
pub trait Activation<T> {
    fn function(x: T) -> T;

    fn derivative(x: T) -> T;
}

/// A fully connected network: `layers` gives the width of each layer, input
/// and output layers included; `weights[i]` and `biases[i]` lead from layer
/// `i` to layer `i + 1`; `data` caches the activations of each layer from the
/// latest forward pass.
pub struct Network<T, A> {
    pub layers: Vec<usize>,
    pub weights: Vec<Matrix<T>>,
    pub biases: Vec<Matrix<T>>,
    pub data: Vec<Matrix<T>>,
    pub activation: A,
    pub learning_rate: T,
}

/// `weights[i]` is `layers[i + 1]` by `layers[i]` and `biases[i]` is
/// `layers[i + 1]` by one, for each of the `layers.len() - 1` steps.
pub open spec fn fits_layers<T>(layers: Seq<usize>, weights: Seq<Matrix<T>>, biases: Seq<Matrix<T>>) -> bool {
    &&& layers.len() >= 2
    &&& weights.len() == layers.len() - 1
    &&& biases.len() == layers.len() - 1
    &&& forall|i: int| 0 <= i < layers.len() - 1 ==> {
        &&& (#[trigger] weights[i]).wf()
        &&& weights[i].rows == layers[i + 1]
        &&& weights[i].cols == layers[i]
    }
    &&& forall|i: int| 0 <= i < layers.len() - 1 ==> {
        &&& (#[trigger] biases[i]).wf()
        &&& biases[i].rows == layers[i + 1]
        &&& biases[i].cols == 1
    }
}

/// `next` is the activation of `w * a + b`: the product `p` of `w` and `a`,
/// accumulated by `multiply_add` from a zero of `T`; the sum `s` of `p` and
/// `b`, entry by entry; and `A::function` of each entry of `s`.
pub open spec fn layer_output<T: Scalar, A: Activation<T>>(
    w: Matrix<T>,
    b: Matrix<T>,
    a: Matrix<T>,
    next: Matrix<T>,
) -> bool {
    exists|z: T, p: Matrix<T>, s: Matrix<T>|
        #![trigger product(w, a, z, multiply_add::<T>, p), zipped(p, b, T::plus, s)]
        call_ensures(T::zero, (), z) && product(w, a, z, multiply_add::<T>, p) && zipped(p, b, T::plus, s)
            && mapped(s, A::function, next)
}

/// One layer of the backward pass, from the error `err` and gradient `grad`
/// at the layer above: `scaled = (grad * err) * rate` entry by entry; the
/// weights `w` become `w2 = w + scaled * transpose(below)` and the biases `b`
/// become `b2 = b + scaled`; the error carried down is
/// `err2 = transpose(w2) * err`, through the updated weights; and the next
/// gradient is `A::derivative` of each entry of the activations `below`.
pub open spec fn backward_step<T: Scalar, A: Activation<T>>(
    w: Matrix<T>,
    b: Matrix<T>,
    below: Matrix<T>,
    rate: T,
    err: Matrix<T>,
    grad: Matrix<T>,
    w2: Matrix<T>,
    b2: Matrix<T>,
    err2: Matrix<T>,
    grad2: Matrix<T>,
) -> bool {
    &&& exists|g: Matrix<T>, scaled: Matrix<T>, bt: Matrix<T>, z1: T, delta: Matrix<T>, wt: Matrix<T>, z2: T|
        #![trigger zipped(grad, err, T::times, g), scaled_by(g, rate, scaled), transposed(below, bt), product(scaled, bt, z1, multiply_add::<T>, delta), transposed(w2, wt), product(wt, err, z2, multiply_add::<T>, err2)]
        {
            &&& zipped(grad, err, T::times, g)
            &&& scaled_by(g, rate, scaled)
            &&& transposed(below, bt)
            &&& call_ensures(T::zero, (), z1)
            &&& product(scaled, bt, z1, multiply_add::<T>, delta)
            &&& zipped(w, delta, T::plus, w2)
            &&& zipped(b, scaled, T::plus, b2)
            &&& transposed(w2, wt)
            &&& call_ensures(T::zero, (), z2)
            &&& product(wt, err, z2, multiply_add::<T>, err2)
        }
    &&& mapped(below, A::derivative, grad2)
}

/// `errs` and `grads` run the backward pass from the last layer down: at the
/// top, `errs = targets - outputs` and `grads = A::derivative(outputs)` entry
/// by entry, over single columns; each lower layer follows by `backward_step`,
/// which turns `weights[i]`, `biases[i]` into `new_weights[i]`, `new_biases[i]`.
pub open spec fn backward_run<T: Scalar, A: Activation<T>>(
    weights: Seq<Matrix<T>>,
    biases: Seq<Matrix<T>>,
    data: Seq<Matrix<T>>,
    rate: T,
    outputs: Seq<T>,
    targets: Seq<T>,
    new_weights: Seq<Matrix<T>>,
    new_biases: Seq<Matrix<T>>,
    errs: Seq<Matrix<T>>,
    grads: Seq<Matrix<T>>,
) -> bool {
    let n = weights.len() as int;
    &&& new_weights.len() == n
    &&& new_biases.len() == n
    &&& errs.len() == n + 1
    &&& grads.len() == n + 1
    &&& exists|oc: Matrix<T>, tc: Matrix<T>|
        #![trigger is_column(oc, outputs), is_column(tc, targets)]
        {
            &&& is_column(oc, outputs)
            &&& is_column(tc, targets)
            &&& zipped(tc, oc, T::minus, errs[n])
            &&& mapped(oc, A::derivative, grads[n])
        }
    &&& forall|i: int|
        0 <= i < n ==> #[trigger] backward_step::<T, A>(
            weights[i],
            biases[i],
            data[i],
            rate,
            errs[i + 1],
            grads[i + 1],
            new_weights[i],
            new_biases[i],
            errs[i],
            grads[i],
        )
}

/// Back-propagation from `outputs` towards `targets` takes `weights` and
/// `biases` to `new_weights` and `new_biases`, through some run of errors and
/// gradients.
pub open spec fn backward_pass<T: Scalar, A: Activation<T>>(
    weights: Seq<Matrix<T>>,
    biases: Seq<Matrix<T>>,
    data: Seq<Matrix<T>>,
    rate: T,
    outputs: Seq<T>,
    targets: Seq<T>,
    new_weights: Seq<Matrix<T>>,
    new_biases: Seq<Matrix<T>>,
) -> bool {
    exists|errs: Seq<Matrix<T>>, grads: Seq<Matrix<T>>|
        #[trigger] backward_run::<T, A>(weights, biases, data, rate, outputs, targets, new_weights, new_biases, errs, grads)
}

/// A forward pass on `inputs` through `weights` and `biases`: `data` holds
/// the inputs as a column, then each layer's activations from the one
/// before, and `out` is the last of them.
pub open spec fn forward_pass<T: Scalar, A: Activation<T>>(
    weights: Seq<Matrix<T>>,
    biases: Seq<Matrix<T>>,
    data: Seq<Matrix<T>>,
    inputs: Seq<T>,
    out: Seq<T>,
) -> bool {
    &&& data.len() == weights.len() + 1
    &&& is_column(data[0], inputs)
    &&& is_column(data.last(), out)
    &&& forall|i: int|
        0 <= i < weights.len() ==> layer_output::<T, A>(weights[i], biases[i], data[i], #[trigger] data[i + 1])
}

/// One training step on an example: a forward pass on `input` through `w`
/// and `b`, then a backward pass from its outputs towards `target` that
/// takes `w` and `b` to `w2` and `b2`.
pub open spec fn training_step<T: Scalar, A: Activation<T>>(
    w: Seq<Matrix<T>>,
    b: Seq<Matrix<T>>,
    input: Seq<T>,
    target: Seq<T>,
    rate: T,
    w2: Seq<Matrix<T>>,
    b2: Seq<Matrix<T>>,
) -> bool {
    exists|data: Seq<Matrix<T>>, out: Seq<T>|
        #[trigger] forward_pass::<T, A>(w, b, data, input, out) && backward_pass::<T, A>(
            w,
            b,
            data,
            rate,
            out,
            target,
            w2,
            b2,
        )
}

/// `ws` and `bs` are the weights and biases before and after each training
/// step of `epochs` passes over the examples in order: step `t` trains on
/// example `t % inputs.len()`, from `w0`, `b0` to `w_end`, `b_end`.
pub open spec fn training_run<T: Scalar, A: Activation<T>>(
    ws: Seq<Seq<Matrix<T>>>,
    bs: Seq<Seq<Matrix<T>>>,
    inputs: Seq<Vec<T>>,
    targets: Seq<Vec<T>>,
    epochs: int,
    rate: T,
    w0: Seq<Matrix<T>>,
    b0: Seq<Matrix<T>>,
    w_end: Seq<Matrix<T>>,
    b_end: Seq<Matrix<T>>,
) -> bool {
    &&& ws.len() == epochs * inputs.len() + 1
    &&& bs.len() == ws.len()
    &&& ws[0] == w0
    &&& bs[0] == b0
    &&& ws.last() == w_end
    &&& bs.last() == b_end
    &&& forall|t: int|
        0 <= t < ws.len() - 1 ==> #[trigger] training_step::<T, A>(
            ws[t],
            bs[t],
            inputs[t % inputs.len() as int]@,
            targets[t % inputs.len() as int]@,
            rate,
            ws[t + 1],
            bs[t + 1],
        )
}

fn copied<T: Copy>(v: &Vec<T>) -> (r: Vec<T>)
    ensures
        r@ == v@,
{
    let mut r: Vec<T> = Vec::new();
    let mut i: usize = 0;
    while i < v.len()
        invariant
            i <= v@.len(),
            r@ == v@.subrange(0, i as int),
        decreases v@.len() - i,
    {
        r.push(v[i]);
        i = i + 1;
    }
    assert(r@ =~= v@);
    r
}

impl<T, A> Network<T, A> {
    /// The weights and biases have the shapes that the layer widths ask for.
    pub open spec fn shaped(&self) -> bool {
        fits_layers(self.layers@, self.weights@, self.biases@)
    }

    /// The cache holds one single-column matrix per layer, of that layer's width.
    pub open spec fn cache_ready(&self) -> bool {
        &&& self.data@.len() == self.layers@.len()
        &&& forall|i: int| 0 <= i < self.layers@.len() ==> {
            &&& (#[trigger] self.data@[i]).wf()
            &&& self.data@[i].rows == self.layers@[i]
            &&& self.data@[i].cols == 1
        }
    }

    pub open spec fn input_width(&self) -> usize {
        self.layers@[0]
    }

    pub open spec fn output_width(&self) -> usize {
        self.layers@.last()
    }

    /// A training example has an input as wide as the first layer and a
    /// target as wide as the last.
    pub open spec fn example_fits(&self, input: Seq<T>, target: Seq<T>) -> bool {
        input.len() == self.input_width() && target.len() == self.output_width()
    }

    /// The error for an example that does not fit: an input of the wrong
    /// length against the first width, else a target of the wrong length
    /// against the last width.
    pub open spec fn example_error(&self, input: Seq<T>, target: Seq<T>) -> ShapeMismatch {
        if input.len() != self.input_width() {
            ShapeMismatch {
                left_rows: input.len() as usize,
                left_cols: 1,
                right_rows: self.input_width(),
                right_cols: 1,
            }
        } else {
            ShapeMismatch {
                left_rows: target.len() as usize,
                left_cols: 1,
                right_rows: self.output_width(),
                right_cols: 1,
            }
        }
    }
}

impl<T: Scalar, A: Activation<T>> Network<T, A> {
    /// A network with the given widths, weights and biases. Where a weight or
    /// bias matrix does not have the shape the widths ask for, the result is
    /// `ShapeMismatch` naming the matrix's shape and the expected one.
    pub fn new(
        layers: Vec<usize>,
        weights: Vec<Matrix<T>>,
        biases: Vec<Matrix<T>>,
        activation: A,
        learning_rate: T,
    ) -> (r: Result<Network<T, A>, ShapeMismatch>)
        requires
            layers@.len() >= 2,
            forall|i: int| 0 <= i < weights@.len() ==> (#[trigger] weights@[i]).wf(),
            forall|i: int| 0 <= i < biases@.len() ==> (#[trigger] biases@[i]).wf(),
        ensures
            r is Ok <==> fits_layers(layers@, weights@, biases@),
            r matches Ok(n) ==> {
                &&& n.shaped()
                &&& n.layers@ == layers@
                &&& n.weights@ == weights@
                &&& n.biases@ == biases@
                &&& n.data@.len() == 0
                &&& n.activation == activation
                &&& n.learning_rate == learning_rate
            },
    {
        let steps = layers.len() - 1;
        if weights.len() != steps {
            return Err(ShapeMismatch { left_rows: weights.len(), left_cols: 1, right_rows: steps, right_cols: 1 });
        }
        if biases.len() != steps {
            return Err(ShapeMismatch { left_rows: biases.len(), left_cols: 1, right_rows: steps, right_cols: 1 });
        }
        let mut i: usize = 0;
        while i < steps
            invariant
                steps == layers@.len() - 1,
                weights@.len() == steps,
                biases@.len() == steps,
                i <= steps,
                forall|k: int| 0 <= k < i ==> {
                    &&& (#[trigger] weights@[k]).rows == layers@[k + 1]
                    &&& weights@[k].cols == layers@[k]
                },
                forall|k: int| 0 <= k < i ==> {
                    &&& (#[trigger] biases@[k]).rows == layers@[k + 1]
                    &&& biases@[k].cols == 1
                },
            decreases steps - i,
        {
            let w = &weights[i];
            if w.rows != layers[i + 1] || w.cols != layers[i] {
                return Err(ShapeMismatch { left_rows: w.rows, left_cols: w.cols, right_rows: layers[i + 1], right_cols: layers[i] });
            }
            let b = &biases[i];
            if b.rows != layers[i + 1] || b.cols != 1 {
                return Err(ShapeMismatch { left_rows: b.rows, left_cols: b.cols, right_rows: layers[i + 1], right_cols: 1 });
            }
            i = i + 1;
        }
        Ok(Network { layers, weights, biases, data: Vec::new(), activation, learning_rate })
    }

    /// Runs the inputs through every layer, computing
    /// `activation(weights[i] * a + biases[i])` from each layer's activations
    /// `a`, caches each layer's activations (the inputs first) and returns the
    /// last layer's. Inputs of another length than the first layer's width give
    /// `ShapeMismatch`, and leave the network as it was.
    pub fn feed_forward(&mut self, inputs: Vec<T>) -> (r: Result<Vec<T>, ShapeMismatch>)
        requires
            old(self).shaped(),
        ensures
            final(self).shaped(),
            final(self).layers == old(self).layers,
            final(self).weights == old(self).weights,
            final(self).biases == old(self).biases,
            final(self).activation == old(self).activation,
            final(self).learning_rate == old(self).learning_rate,
            r is Ok <==> inputs@.len() == old(self).input_width(),
            r is Err ==> final(self).data == old(self).data,
            r matches Err(e) ==> e == (ShapeMismatch {
                left_rows: inputs@.len() as usize,
                left_cols: 1,
                right_rows: old(self).input_width(),
                right_cols: 1,
            }),
            r matches Ok(out) ==> {
                &&& final(self).cache_ready()
                &&& out@.len() == old(self).output_width()
                &&& forward_pass::<T, A>(final(self).weights@, final(self).biases@, final(self).data@, inputs@, out@)
            },
    {
        if inputs.len() != self.layers[0] {
            return Err(ShapeMismatch { left_rows: inputs.len(), left_cols: 1, right_rows: self.layers[0], right_cols: 1 });
        }
        let steps = self.layers.len() - 1;
        let mut data: Vec<Matrix<T>> = Vec::new();
        data.push(Matrix::column(inputs));
        let mut i: usize = 0;
        while i < steps
            invariant
                self.shaped(),
                steps == self.layers@.len() - 1,
                i <= steps,
                data@.len() == i + 1,
                is_column(data@[0], inputs@),
                forall|k: int| 0 <= k <= i ==> {
                    &&& (#[trigger] data@[k]).wf()
                    &&& data@[k].rows == self.layers@[k]
                    &&& data@[k].cols == 1
                },
                forall|k: int|
                    0 <= k < i ==> layer_output::<T, A>(
                        self.weights@[k],
                        self.biases@[k],
                        data@[k],
                        #[trigger] data@[k + 1],
                    ),
            decreases steps - i,
        {
            let zero = T::zero;
            let z = zero();
            let weighted = self.weights[i].matmul(&data[i], z, multiply_add);
            let shifted = weighted.combine(&self.biases[i], T::plus);
            let next = shifted.map(A::function);
            assert(layer_output::<T, A>(self.weights@[i as int], self.biases@[i as int], data@[i as int], next));
            data.push(next);
            i = i + 1;
        }
        self.data = data;
        Ok(self.data[steps].column_values())
    }
    /// One step of gradient descent from the cached forward pass, from the
    /// last layer down to the first: with `error = targets - outputs` and
    /// `gradient = derivative(outputs)`, each step scales
    /// `gradient * error` by the learning rate, adds its product with the
    /// transposed activations of the layer below to the weights and adds it
    /// to the biases, then carries the error back through the updated weights
    /// and takes the next gradient from the layer below's activations.
    /// Outputs or targets of another length than the last layer's width give
    /// `ShapeMismatch`, and leave the network as it was.
    pub fn back_propagate(&mut self, outputs: Vec<T>, targets: Vec<T>) -> (r: Result<(), ShapeMismatch>)
        requires
            old(self).shaped(),
            old(self).cache_ready(),
        ensures
            final(self).shaped(),
            final(self).cache_ready(),
            final(self).layers == old(self).layers,
            final(self).data == old(self).data,
            final(self).activation == old(self).activation,
            final(self).learning_rate == old(self).learning_rate,
            r is Ok <==> outputs@.len() == old(self).output_width() && targets@.len() == old(self).output_width(),
            r is Err ==> final(self).weights == old(self).weights && final(self).biases == old(self).biases,
            r matches Err(e) ==> e == (if targets@.len() != old(self).output_width() {
                ShapeMismatch {
                    left_rows: targets@.len() as usize,
                    left_cols: 1,
                    right_rows: old(self).output_width(),
                    right_cols: 1,
                }
            } else {
                ShapeMismatch {
                    left_rows: outputs@.len() as usize,
                    left_cols: 1,
                    right_rows: old(self).output_width(),
                    right_cols: 1,
                }
            }),
            r is Ok ==> backward_pass::<T, A>(
                old(self).weights@,
                old(self).biases@,
                old(self).data@,
                old(self).learning_rate,
                outputs@,
                targets@,
                final(self).weights@,
                final(self).biases@,
            ),
    {
        let width = self.layers[self.layers.len() - 1];
        if targets.len() != width {
            return Err(ShapeMismatch { left_rows: targets.len(), left_cols: 1, right_rows: width, right_cols: 1 });
        }
        if outputs.len() != width {
            return Err(ShapeMismatch { left_rows: outputs.len(), left_cols: 1, right_rows: width, right_cols: 1 });
        }
        let ghost outs = outputs@;
        let ghost tgts = targets@;
        let outputs = Matrix::column(outputs);
        let targets = Matrix::column(targets);
        let mut errors = targets.combine(&outputs, T::minus);
        let mut gradients = outputs.map(A::derivative);
        let rate = self.learning_rate;
        let zero = T::zero;
        let n: usize = self.layers.len() - 1;
        let ghost mut errs: Seq<Matrix<T>> = Seq::new((n + 1) as nat, |k: int| errors);
        let ghost mut grads: Seq<Matrix<T>> = Seq::new((n + 1) as nat, |k: int| gradients);
        let mut i: usize = n;
        while i > 0
            invariant
                self.shaped(),
                self.cache_ready(),
                self.layers == old(self).layers,
                self.data == old(self).data,
                self.activation == old(self).activation,
                self.learning_rate == old(self).learning_rate,
                rate == self.learning_rate,
                zero == T::zero,
                n == self.layers@.len() - 1,
                i <= n,
                errors.wf(),
                errors.rows == self.layers@[i as int],
                errors.cols == 1,
                gradients.wf(),
                gradients.rows == self.layers@[i as int],
                gradients.cols == 1,
                errs.len() == n + 1,
                grads.len() == n + 1,
                errs[i as int] == errors,
                grads[i as int] == gradients,
                is_column(outputs, outs),
                is_column(targets, tgts),
                zipped(targets, outputs, T::minus, errs[n as int]),
                mapped(outputs, A::derivative, grads[n as int]),
                forall|k: int| 0 <= k < i ==> #[trigger] self.weights@[k] == old(self).weights@[k],
                forall|k: int| 0 <= k < i ==> #[trigger] self.biases@[k] == old(self).biases@[k],
                forall|k: int|
                    i <= k < n ==> #[trigger] backward_step::<T, A>(
                        old(self).weights@[k],
                        old(self).biases@[k],
                        old(self).data@[k],
                        rate,
                        errs[k + 1],
                        grads[k + 1],
                        self.weights@[k],
                        self.biases@[k],
                        errs[k],
                        grads[k],
                    ),
            decreases i,
        {
            i = i - 1;
            let g = gradients.combine(&errors, T::times);
            let scaled = g.scale(rate);
            let below = self.data[i].transpose();
            let z1 = zero();
            let delta = scaled.matmul(&below, z1, multiply_add);
            let weights = self.weights[i].combine(&delta, T::plus);
            let biases = self.biases[i].combine(&scaled, T::plus);
            self.weights.set(i, weights);
            self.biases.set(i, biases);
            let wt = self.weights[i].transpose();
            let z2 = zero();
            let next_errors = wt.matmul(&errors, z2, multiply_add);
            let next_gradients = self.data[i].map(A::derivative);
            proof {
                assert(backward_step::<T, A>(
                    old(self).weights@[i as int],
                    old(self).biases@[i as int],
                    old(self).data@[i as int],
                    rate,
                    errors,
                    gradients,
                    weights,
                    biases,
                    next_errors,
                    next_gradients,
                ));
                errs = errs.update(i as int, next_errors);
                grads = grads.update(i as int, next_gradients);
            }
            errors = next_errors;
            gradients = next_gradients;
        }
        assert(backward_run::<T, A>(
            old(self).weights@,
            old(self).biases@,
            old(self).data@,
            rate,
            outs,
            tgts,
            self.weights@,
            self.biases@,
            errs,
            grads,
        ));
        Ok(())
    }
    /// Online training: `epochs` passes over the examples in order, each
    /// example a forward pass on its input followed by a backward pass
    /// towards its target. An example whose input or target has the wrong
    /// length gives `ShapeMismatch` on the first pass that reaches it.
    pub fn train(&mut self, inputs: Vec<Vec<T>>, targets: Vec<Vec<T>>, epochs: u16) -> (r: Result<(), ShapeMismatch>)
        requires
            old(self).shaped(),
            inputs@.len() == targets@.len(),
        ensures
            final(self).shaped(),
            final(self).layers == old(self).layers,
            final(self).activation == old(self).activation,
            final(self).learning_rate == old(self).learning_rate,
            r is Err <==> epochs > 0 && exists|j: int|
                0 <= j < inputs@.len() && !old(self).example_fits(#[trigger] inputs@[j]@, targets@[j]@),
            r matches Err(e) ==> exists|j: int|
                0 <= j < inputs@.len() && (forall|k: int|
                    0 <= k < j ==> old(self).example_fits(#[trigger] inputs@[k]@, targets@[k]@))
                    && !old(self).example_fits(inputs@[j]@, targets@[j]@) && e == old(self).example_error(
                    #[trigger] inputs@[j]@,
                    targets@[j]@,
                ),
            epochs == 0 || inputs@.len() == 0 ==> final(self).data == old(self).data,
            r is Ok && epochs > 0 && inputs@.len() > 0 ==> final(self).cache_ready(),
            r is Ok ==> exists|ws: Seq<Seq<Matrix<T>>>, bs: Seq<Seq<Matrix<T>>>|
                #[trigger] training_run::<T, A>(
                    ws,
                    bs,
                    inputs@,
                    targets@,
                    epochs as int,
                    old(self).learning_rate,
                    old(self).weights@,
                    old(self).biases@,
                    final(self).weights@,
                    final(self).biases@,
                ) && (ws.len() > 1 ==> exists|out: Seq<T>|
                    #[trigger] forward_pass::<T, A>(
                        ws[ws.len() - 2],
                        bs[ws.len() - 2],
                        final(self).data@,
                        inputs@.last()@,
                        out,
                    )),
    {
        let n: usize = inputs.len();
        let ghost rate = self.learning_rate;
        let ghost mut ws: Seq<Seq<Matrix<T>>> = seq![self.weights@];
        let ghost mut bs: Seq<Seq<Matrix<T>>> = seq![self.biases@];
        let ghost mut last_j: int = 0;
        let mut epoch: u16 = 0;
        while epoch < epochs
            invariant
                self.shaped(),
                self.layers == old(self).layers,
                self.activation == old(self).activation,
                self.learning_rate == old(self).learning_rate,
                inputs@.len() == targets@.len(),
                epoch <= epochs,
                ws.len() == epoch * n + 1,
                bs.len() == ws.len(),
                ws[0] == old(self).weights@,
                bs[0] == old(self).biases@,
                ws.last() == self.weights@,
                bs.last() == self.biases@,
                n == inputs@.len(),
                rate == self.learning_rate,
                forall|t: int|
                    0 <= t < ws.len() - 1 ==> #[trigger] training_step::<T, A>(
                        ws[t],
                        bs[t],
                        inputs@[t % n as int]@,
                        targets@[t % n as int]@,
                        rate,
                        ws[t + 1],
                        bs[t + 1],
                    ),
                ws.len() == 1 ==> self.data == old(self).data,
                ws.len() > 1 ==> self.cache_ready() && 0 <= last_j < n && exists|out: Seq<T>|
                    #[trigger] forward_pass::<T, A>(
                        ws[ws.len() - 2],
                        bs[ws.len() - 2],
                        self.data@,
                        inputs@[last_j]@,
                        out,
                    ),
                epoch > 0 && n > 0 ==> last_j == n - 1,
                epoch > 0 ==> forall|j: int|
                    0 <= j < inputs@.len() ==> old(self).example_fits(#[trigger] inputs@[j]@, targets@[j]@),
            decreases epochs - epoch,
        {
            let mut j: usize = 0;
            while j < inputs.len()
                invariant
                    self.shaped(),
                    self.layers == old(self).layers,
                    self.activation == old(self).activation,
                    self.learning_rate == old(self).learning_rate,
                    inputs@.len() == targets@.len(),
                    epoch < epochs,
                    j <= inputs@.len(),
                    ws.len() == epoch * n + j + 1,
                    bs.len() == ws.len(),
                    ws[0] == old(self).weights@,
                    bs[0] == old(self).biases@,
                    ws.last() == self.weights@,
                    bs.last() == self.biases@,
                    n == inputs@.len(),
                    rate == self.learning_rate,
                    forall|t: int|
                        0 <= t < ws.len() - 1 ==> #[trigger] training_step::<T, A>(
                            ws[t],
                            bs[t],
                            inputs@[t % n as int]@,
                            targets@[t % n as int]@,
                            rate,
                            ws[t + 1],
                            bs[t + 1],
                        ),

                    ws.len() == 1 ==> self.data == old(self).data,
                    ws.len() > 1 ==> self.cache_ready() && 0 <= last_j < n && exists|out: Seq<T>|
                        #[trigger] forward_pass::<T, A>(
                            ws[ws.len() - 2],
                            bs[ws.len() - 2],
                            self.data@,
                            inputs@[last_j]@,
                            out,
                        ),
                    j > 0 ==> last_j == j - 1,
                    forall|k: int| 0 <= k < j ==> old(self).example_fits(#[trigger] inputs@[k]@, targets@[k]@),
                decreases inputs@.len() - j,
            {
                let ghost w_before = self.weights@;
                let ghost b_before = self.biases@;
                let outputs = match self.feed_forward(copied(&inputs[j])) {
                    Ok(outputs) => outputs,
                    Err(e) => {
                        assert(!old(self).example_fits(inputs@[j as int]@, targets@[j as int]@));
                        return Err(e);
                    },
                };
                let ghost data = self.data@;
                let ghost out = outputs@;
                match self.back_propagate(outputs, copied(&targets[j])) {
                    Ok(()) => {},
                    Err(e) => {
                        assert(!old(self).example_fits(inputs@[j as int]@, targets@[j as int]@));
                        return Err(e);
                    },
                }
                proof {
                    assert(forward_pass::<T, A>(w_before, b_before, data, inputs@[j as int]@, out));
                    assert(training_step::<T, A>(
                        w_before,
                        b_before,
                        inputs@[j as int]@,
                        targets@[j as int]@,
                        rate,
                        self.weights@,
                        self.biases@,
                    ));
                    let t = epoch * n + j;
                    lemma_fundamental_div_mod_converse_mod(t, n as int, epoch as int, j as int);
                    ws = ws.push(self.weights@);
                    bs = bs.push(self.biases@);
                    assert(ws[t] == w_before);
                    last_j = j as int;
                    assert(ws[ws.len() - 2] == w_before && bs[ws.len() - 2] == b_before);
                    assert(self.data@ == data);
                    assert(forward_pass::<T, A>(ws[ws.len() - 2], bs[ws.len() - 2], self.data@, inputs@[last_j]@, out));
                }
                j = j + 1;
            }
            proof {
                assert((epoch + 1) * n == epoch * n + n) by (nonlinear_arith);
            }
            epoch = epoch + 1;
        }
        proof {
            if epochs == 0 || n == 0 {
                assert(epochs * n == 0) by (nonlinear_arith)
                    requires
                        epochs == 0 || n == 0,
                ;
            }
            if epochs > 0 && n > 0 {
                assert(epochs * n > 0) by (nonlinear_arith)
                    requires
                        epochs > 0,
                        n > 0,
                ;
            }
            if ws.len() > 1 {
                assert(last_j == n - 1);
                assert(inputs@.last() == inputs@[last_j]);
                let out = choose|out: Seq<T>|
                    #[trigger] forward_pass::<T, A>(ws[ws.len() - 2], bs[ws.len() - 2], self.data@, inputs@[last_j]@, out);
                assert(forward_pass::<T, A>(ws[ws.len() - 2], bs[ws.len() - 2], self.data@, inputs@.last()@, out));
            }
        }
        assert(training_run::<T, A>(
            ws,
            bs,
            inputs@,
            targets@,
            epochs as int,
            rate,
            old(self).weights@,
            old(self).biases@,
            self.weights@,
            self.biases@,
        ));
        Ok(())
    }
}

} // verus!
