use vstd::prelude::*;
use vstd::std_specs::ops::MulSpec;

use crate::activation::Activation;
use crate::error::NetworkError;
use crate::matrix::{
    add_total, all_spread_draws, is_difference, is_entrywise_product, is_mapped, is_product,
    is_scaled, is_sum,
    mul_total, sub_total, transpose_of, Grid, Matrix,
};

verus! {

/// The column vector (a one-column matrix) holding `v`.
pub open spec fn column_of<T>(v: Seq<T>) -> Grid<T> {
    Grid { rows: v.len(), cols: 1, cells: Seq::new(v.len(), |i: int| seq![v[i]]) }
}

/// The entries of the first column of `g`, top to bottom.
pub open spec fn column_values<T>(g: Grid<T>) -> Seq<T> {
    Seq::new(g.rows, |i: int| g.cells[i][0])
}

/// `y` is one layer's output on the column `x`: `f` applied to each entry of `w * x + b`.
pub open spec fn is_layer_output<T, F: Fn(T) -> T>(
    w: Grid<T>,
    b: Grid<T>,
    f: F,
    x: Grid<T>,
    y: Grid<T>,
) -> bool where T: Default + std::ops::Add<Output = T> + std::ops::Mul<Output = T> {
    exists|p: Grid<T>, s: Grid<T>|
        #[trigger] is_product(w, x, p) && #[trigger] is_sum(p, b, s) && is_mapped(s, f, y)
}

/// The column vector holding `v`: the one-row matrix of `v`, transposed.
fn to_column<T: Copy>(v: Vec<T>) -> (r: Matrix<T>)
    ensures
        r.wf(),
        r@ == column_of(v@),
{
    let ghost vs = v@;
    let mut rows: Vec<Vec<T>> = Vec::new();
    rows.push(v);
    match Matrix::from(rows) {
        Ok(m) => {
            assert(m@.cells[0] == vs);
            let r = m.transpose();
            assert forall|i: int| 0 <= i < vs.len() implies r@.cells[i] =~= column_of(vs).cells[i] by {}
            assert(r@.cells =~= column_of(vs).cells);
            r
        },
        Err(_) => Matrix { rows: 0, cols: 1, data: Vec::new() },
    }
}

/// The entries of the first column of `m`.
fn column_entries<T: Copy>(m: &Matrix<T>) -> (r: Vec<T>)
    requires
        m.wf(),
        m.cols == 1,
    ensures
        r@ == column_values(m@),
{
    let mut r: Vec<T> = Vec::new();
    let mut i: usize = 0;
    while i < m.rows
        invariant
            m.wf(),
            m.cols == 1,
            i <= m.rows,
            r@.len() == i,
            forall|k: int| 0 <= k < i ==> #[trigger] r@[k] == m@.at(k, 0),
        decreases m.rows - i,
    {
        let ghost gi = i as int;
        assert(m@.cells[gi] == m.data@[gi]@);
        r.push(m.data[i][0]);
        i += 1;
    }
    assert(r@ =~= column_values(m@));
    r
}

/// A copy of `v`.
fn copy_of<T: Copy>(v: &Vec<T>) -> (r: Vec<T>)
    ensures
        r@ == v@,
{
    let mut r: Vec<T> = Vec::new();
    let mut i: usize = 0;
    while i < v.len()
        invariant
            i <= v@.len(),
            r@ == v@.subrange(0, i as int),
        decreases v@.len() - i,
    {
        r.push(v[i]);
        i += 1;
        assert(r@ =~= v@.subrange(0, i as int));
    }
    assert(r@ =~= v@);
    r
}

/// A layered feed-forward network: `weights[i]` and `biases[i]` carry layer `i` of the
/// `layers` sizes into layer `i + 1`, and `data` caches the columns of the last forward pass.
pub struct Network<T, F, D> {
    pub layers: Vec<usize>,
    pub weights: Vec<Matrix<T>>,
    pub biases: Vec<Matrix<T>>,
    pub data: Vec<Matrix<T>>,
    pub learning_rate: T,
    pub activation: Activation<F, D>,
}

impl<T: Copy, F: Fn(T) -> T, D: Fn(T) -> T> Network<T, F, D> {
    /// The number of weight layers, one fewer than the number of layer sizes.
    pub open spec fn depth(&self) -> int {
        self.layers@.len() - 1
    }

    /// The weight and bias matrices fit the layer sizes, and the activation accepts every value.
    pub open spec fn wf(&self) -> bool {
        &&& self.layers@.len() >= 2
        &&& self.weights@.len() == self.depth()
        &&& self.biases@.len() == self.depth()
        &&& forall|i: int|
            0 <= i < self.depth() ==> {
                &&& (#[trigger] self.weights@[i]).wf()
                &&& self.weights@[i].rows == self.layers@[i + 1]
                &&& self.weights@[i].cols == self.layers@[i]
            }
        &&& forall|i: int|
            0 <= i < self.depth() ==> {
                &&& (#[trigger] self.biases@[i]).wf()
                &&& self.biases@[i].rows == self.layers@[i + 1]
                &&& self.biases@[i].cols == 1
            }
        &&& self.activation.callable::<T>()
    }

    /// The cache holds one column per layer, each as long as its layer.
    pub open spec fn cache_ready(&self) -> bool {
        &&& self.data@.len() == self.layers@.len()
        &&& forall|i: int|
            0 <= i < self.layers@.len() ==> {
                &&& (#[trigger] self.data@[i]).wf()
                &&& self.data@[i].rows == self.layers@[i]
                &&& self.data@[i].cols == 1
            }
    }

    /// The cache is the forward pass on `input`: the input column, then each layer's
    /// output on the column before it.
    pub open spec fn is_forward_pass(&self, input: Seq<T>) -> bool where
        T: Default + std::ops::Add<Output = T> + std::ops::Mul<Output = T>,
     {
        &&& self.cache_ready()
        &&& self.data@[0]@ == column_of(input)
        &&& forall|i: int|
            0 <= i < self.depth() ==> is_layer_output(
                self.weights@[i]@,
                self.biases@[i]@,
                self.activation.function,
                self.data@[i]@,
                #[trigger] self.data@[i + 1]@,
            )
    }

    /// Step `i` of a backward pass from `before` to `self`. Coming down from layer `i + 1`
    /// with the error column `errs[i + 1]` and the derivative column `dgs[i + 1]`: the
    /// gradient `gs[i]` is their entrywise product scaled by the learning rate; `weights[i]`
    /// gains `gs[i] * data[i]ᵀ` and `biases[i]` gains `gs[i]`; the error passed down is
    /// `weights[i]ᵀ * errs[i + 1]`, over the weights before the update; and the derivative
    /// column passed down is the derivative applied to the cached `data[i]`.
    pub open spec fn backward_step(
        &self,
        before: &Self,
        i: int,
        errs: Seq<Grid<T>>,
        dgs: Seq<Grid<T>>,
        hads: Seq<Grid<T>>,
        gs: Seq<Grid<T>>,
        deltas: Seq<Grid<T>>,
    ) -> bool where
        T: Default + std::ops::Add<Output = T> + std::ops::Mul<Output = T>,
     {
        &&& is_entrywise_product(dgs[i + 1], errs[i + 1], hads[i])
        &&& is_scaled(hads[i], before.learning_rate, gs[i])
        &&& is_product(gs[i], transpose_of(before.data@[i]@), deltas[i])
        &&& is_sum(before.weights@[i]@, deltas[i], self.weights@[i]@)
        &&& is_sum(before.biases@[i]@, gs[i], self.biases@[i]@)
        &&& is_product(transpose_of(before.weights@[i]@), errs[i + 1], errs[i])
        &&& is_mapped(before.data@[i]@, before.activation.derivative, dgs[i])
    }

    /// The columns and matrices of a whole backward pass from `before` to `self`: it starts
    /// from the error `targets - outputs` and the derivative applied to `outputs`, and takes
    /// every step from the last layer down to the first.
    pub open spec fn backward_chain(
        &self,
        before: &Self,
        outputs: Seq<T>,
        targets: Seq<T>,
        errs: Seq<Grid<T>>,
        dgs: Seq<Grid<T>>,
        hads: Seq<Grid<T>>,
        gs: Seq<Grid<T>>,
        deltas: Seq<Grid<T>>,
    ) -> bool where
        T: Default + std::ops::Add<Output = T> + std::ops::Sub<Output = T> + std::ops::Mul<Output = T>,
     {
        let n = before.depth();
        &&& errs.len() == n + 1
        &&& dgs.len() == n + 1
        &&& hads.len() == n
        &&& gs.len() == n
        &&& deltas.len() == n
        &&& is_difference(column_of(targets), column_of(outputs), errs[n])
        &&& is_mapped(column_of(outputs), before.activation.derivative, dgs[n])
        &&& forall|i: int|
            0 <= i < n ==> #[trigger] self.backward_step(before, i, errs, dgs, hads, gs, deltas)
    }

    /// `self` is `before` after one backward pass on `outputs` and `targets`.
    pub open spec fn is_backward_pass(&self, before: &Self, outputs: Seq<T>, targets: Seq<T>) -> bool where
        T: Default + std::ops::Add<Output = T> + std::ops::Sub<Output = T> + std::ops::Mul<Output = T>,
     {
        exists|
            errs: Seq<Grid<T>>,
            dgs: Seq<Grid<T>>,
            hads: Seq<Grid<T>>,
            gs: Seq<Grid<T>>,
            deltas: Seq<Grid<T>>,
        | #[trigger] self.backward_chain(before, outputs, targets, errs, dgs, hads, gs, deltas)
    }

    /// `v` is as long as the first layer.
    pub open spec fn input_fits(&self, v: Seq<T>) -> bool {
        v.len() == self.layers@[0]
    }

    /// `v` is as long as the last layer.
    pub open spec fn target_fits(&self, v: Seq<T>) -> bool {
        v.len() == self.layers@.last()
    }

    /// Example `j` of the dataset has an input and a target of the right lengths.
    pub open spec fn example_fits(&self, inputs: Seq<Vec<T>>, targets: Seq<Vec<T>>, j: int) -> bool {
        self.input_fits(inputs[j]@) && self.target_fits(targets[j]@)
    }

    /// Every example of the dataset fits the network.
    pub open spec fn all_fit(&self, inputs: Seq<Vec<T>>, targets: Seq<Vec<T>>) -> bool {
        forall|j: int| 0 <= j < inputs.len() ==> #[trigger] self.example_fits(inputs, targets, j)
    }

    /// Example `j` is the first that does not fit, and `e` is its error: `InputSizeMismatch`
    /// when its input is of the wrong length, else `TargetSizeMismatch`.
    pub open spec fn is_first_misfit(
        &self,
        inputs: Seq<Vec<T>>,
        targets: Seq<Vec<T>>,
        j: int,
        e: NetworkError,
    ) -> bool {
        &&& 0 <= j < inputs.len()
        &&& !self.example_fits(inputs, targets, j)
        &&& forall|k: int| 0 <= k < j ==> #[trigger] self.example_fits(inputs, targets, k)
        &&& e == if self.input_fits(inputs[j]@) {
            NetworkError::TargetSizeMismatch
        } else {
            NetworkError::InputSizeMismatch
        }
    }

    /// Training stopped at the first example that does not fit, with error `e`: the weights,
    /// biases and the rest but the cache are those of `before` trained on every example ahead
    /// of it, in order.
    pub open spec fn stopped_at_misfit(
        before: Self,
        after: Self,
        inputs: Seq<Vec<T>>,
        targets: Seq<Vec<T>>,
        e: NetworkError,
    ) -> bool where
        T: Default + std::ops::Add<Output = T> + std::ops::Sub<Output = T> + std::ops::Mul<Output = T>,
     {
        exists|j: int, states: Seq<Self>|
            #[trigger] before.is_first_misfit(inputs, targets, j, e) && #[trigger] Self::is_partial_epoch(
                states,
                inputs,
                targets,
                j,
            ) && states[0] == before && after.same_parameters(&states.last())
    }

    /// `after` is `before` trained on one example: a forward pass on `input`, then a backward
    /// pass from that pass's output towards `target`.
    pub open spec fn is_training_step(before: Self, after: Self, input: Seq<T>, target: Seq<T>) -> bool where
        T: Default + std::ops::Add<Output = T> + std::ops::Sub<Output = T> + std::ops::Mul<Output = T>,
     {
        exists|mid: Self|
            #[trigger] mid.is_forward_pass(input) && mid.same_parameters(&before)
                && after.is_backward_pass(&mid, column_values(mid.data@.last()@), target)
    }

    /// `states` are the networks of the first `n` steps of an epoch: `states[j + 1]` is
    /// `states[j]` trained on example `j`, for `j` in `0..n`.
    pub open spec fn is_partial_epoch(
        states: Seq<Self>,
        inputs: Seq<Vec<T>>,
        targets: Seq<Vec<T>>,
        n: int,
    ) -> bool where
        T: Default + std::ops::Add<Output = T> + std::ops::Sub<Output = T> + std::ops::Mul<Output = T>,
     {
        &&& states.len() == n + 1
        &&& forall|j: int|
            0 <= j < n ==> Self::is_training_step(
                #[trigger] states[j],
                states[j + 1],
                inputs[j]@,
                targets[j]@,
            )
    }

    /// `states` are the networks of one epoch: `states[j + 1]` is `states[j]` trained on
    /// example `j`, for every example in order.
    pub open spec fn is_epoch(states: Seq<Self>, inputs: Seq<Vec<T>>, targets: Seq<Vec<T>>) -> bool where
        T: Default + std::ops::Add<Output = T> + std::ops::Sub<Output = T> + std::ops::Mul<Output = T>,
     {
        &&& states.len() == inputs.len() + 1
        &&& forall|j: int|
            0 <= j < inputs.len() ==> Self::is_training_step(
                #[trigger] states[j],
                states[j + 1],
                inputs[j]@,
                targets[j]@,
            )
    }

    /// `runs` are `runs.len()` epochs in a row, from `before` to `after`.
    pub open spec fn is_run(
        runs: Seq<Seq<Self>>,
        before: Self,
        after: Self,
        inputs: Seq<Vec<T>>,
        targets: Seq<Vec<T>>,
    ) -> bool where
        T: Default + std::ops::Add<Output = T> + std::ops::Sub<Output = T> + std::ops::Mul<Output = T>,
     {
        &&& runs.len() >= 1
        &&& runs[0][0] == before
        &&& runs.last().last() == after
        &&& forall|e: int| 0 <= e < runs.len() ==> Self::is_epoch(#[trigger] runs[e], inputs, targets)
        &&& forall|e: int| 0 <= e < runs.len() - 1 ==> (#[trigger] runs[e]).last() == runs[e + 1][0]
    }

    /// Everything but the cache is as in `o`.
    pub open spec fn same_parameters(&self, o: &Self) -> bool {
        &&& self.layers == o.layers
        &&& self.weights == o.weights
        &&& self.biases == o.biases
        &&& self.learning_rate == o.learning_rate
        &&& self.activation == o.activation
    }

    /// A network with the given layer sizes, whose weights and biases are drawn by
    /// `Matrix::random`: `weights[i]` is `layers[i + 1]` by `layers[i]` and `biases[i]` is
    /// `layers[i + 1]` by one, every entry `2u - 1` for a draw `u`. The cache starts empty.
    /// `ShapeMismatch` when fewer than two layer sizes are given.
    pub fn new(layers: Vec<usize>, learning_rate: T, activation: Activation<F, D>) -> (r: Result<
        Network<T, F, D>,
        NetworkError,
    >) where
        T: From<u8> + std::ops::Add<Output = T> + std::ops::Sub<Output = T>,
        rand::distributions::Standard: rand::distributions::Distribution<T>,
        requires
            add_total::<T>(),
            sub_total::<T>(),
            activation.callable::<T>(),
        ensures
            match r {
                Ok(n) => {
                    &&& layers@.len() >= 2
                    &&& n.wf()
                    &&& n.layers == layers
                    &&& n.data@.len() == 0
                    &&& forall|i: int|
                        0 <= i < n.depth() ==> all_spread_draws(#[trigger] n.weights@[i]@)
                            && all_spread_draws(n.biases@[i]@)
                    &&& n.learning_rate == learning_rate
                    &&& n.activation == activation
                },
                Err(e) => e == NetworkError::ShapeMismatch && layers@.len() < 2,
            },
    {
        if layers.len() < 2 {
            return Err(NetworkError::ShapeMismatch);
        }
        let mut weights: Vec<Matrix<T>> = Vec::new();
        let mut biases: Vec<Matrix<T>> = Vec::new();
        let mut i: usize = 0;
        while i < layers.len() - 1
            invariant
                add_total::<T>(),
                sub_total::<T>(),
                layers@.len() >= 2,
                i <= layers@.len() - 1,
                weights@.len() == i,
                biases@.len() == i,
                forall|k: int|
                    0 <= k < i ==> {
                        &&& (#[trigger] weights@[k]).wf()
                        &&& weights@[k].rows == layers@[k + 1]
                        &&& weights@[k].cols == layers@[k]
                    },
                forall|k: int|
                    0 <= k < i ==> {
                        &&& (#[trigger] biases@[k]).wf()
                        &&& biases@[k].rows == layers@[k + 1]
                        &&& biases@[k].cols == 1
                    },
                forall|k: int|
                    0 <= k < i ==> all_spread_draws(#[trigger] weights@[k]@) && all_spread_draws(
                        biases@[k]@,
                    ),
            decreases layers@.len() - 1 - i,
        {
            weights.push(Matrix::random(layers[i + 1], layers[i]));
            biases.push(Matrix::random(layers[i + 1], 1));
            i += 1;
        }
        Ok(Network { layers, weights, biases, data: Vec::new(), learning_rate, activation })
    }

    /// Runs the network on `inputs`: the input column is cached, then each layer's output
    /// `function(weights[i] * x + biases[i])` on the column `x` before it; the last column's
    /// entries are returned. `InputSizeMismatch`, with nothing changed, when `inputs` is not
    /// as long as the first layer.
    pub fn feed_forward(&mut self, inputs: Vec<T>) -> (r: Result<Vec<T>, NetworkError>) where
        T: Default + std::ops::Add<Output = T> + std::ops::Mul<Output = T>,
        requires
            old(self).wf(),
            add_total::<T>(),
            mul_total::<T>(),
        ensures
            final(self).wf(),
            final(self).same_parameters(old(self)),
            match r {
                Ok(out) => {
                    &&& inputs@.len() == old(self).layers@[0]
                    &&& final(self).is_forward_pass(inputs@)
                    &&& out@ == column_values(final(self).data@.last()@)
                    &&& out@.len() == old(self).layers@.last()
                },
                Err(e) => {
                    &&& e == NetworkError::InputSizeMismatch
                    &&& inputs@.len() != old(self).layers@[0]
                    &&& *final(self) == *old(self)
                },
            },
    {
        if inputs.len() != self.layers[0] {
            return Err(NetworkError::InputSizeMismatch);
        }
        let ghost input = inputs@;
        let first = to_column(inputs);
        self.data = Vec::new();
        self.data.push(first);
        let n = self.layers.len() - 1;
        let mut i: usize = 0;
        while i < n
            invariant
                self.wf(),
                self.same_parameters(old(self)),
                add_total::<T>(),
                mul_total::<T>(),
                n == self.depth(),
                i <= n,
                self.data@.len() == i + 1,
                self.data@[0]@ == column_of(input),
                input.len() == self.layers@[0],
                forall|k: int|
                    0 <= k <= i ==> {
                        &&& (#[trigger] self.data@[k]).wf()
                        &&& self.data@[k].rows == self.layers@[k]
                        &&& self.data@[k].cols == 1
                    },
                forall|k: int|
                    0 <= k < i ==> is_layer_output(
                        self.weights@[k]@,
                        self.biases@[k]@,
                        self.activation.function,
                        self.data@[k]@,
                        #[trigger] self.data@[k + 1]@,
                    ),
            decreases n - i,
        {
            let p = match self.weights[i].multiply(&self.data[i]) {
                Ok(m) => m,
                Err(e) => return Err(e),
            };
            let s = match p.add(&self.biases[i]) {
                Ok(m) => m,
                Err(e) => return Err(e),
            };
            let y = s.map(&self.activation.function);
            assert(is_layer_output(
                self.weights@[i as int]@,
                self.biases@[i as int]@,
                self.activation.function,
                self.data@[i as int]@,
                y@,
            ));
            self.data.push(y);
            i += 1;
        }
        let out = column_entries(&self.data[n]);
        Ok(out)
    }


    /// Moves the weights and biases one gradient-descent step towards `targets`, from the
    /// `outputs` of the forward pass that filled the cache (see `backward_step`).
    /// `TargetSizeMismatch` when `targets` is not as long as the last layer, else
    /// `ShapeMismatch` when `outputs` and `targets` differ in length; nothing changes then.
    pub fn back_propogate(&mut self, outputs: Vec<T>, targets: Vec<T>) -> (r: Result<
        (),
        NetworkError,
    >) where
        T: Default + std::ops::Add<Output = T> + std::ops::Sub<Output = T> + std::ops::Mul<Output = T>,
        requires
            old(self).wf(),
            old(self).cache_ready(),
            add_total::<T>(),
            sub_total::<T>(),
            mul_total::<T>(),
        ensures
            final(self).wf(),
            final(self).cache_ready(),
            final(self).layers == old(self).layers,
            final(self).data == old(self).data,
            final(self).learning_rate == old(self).learning_rate,
            final(self).activation == old(self).activation,
            match r {
                Ok(()) => {
                    &&& targets@.len() == old(self).layers@.last()
                    &&& outputs@.len() == targets@.len()
                    &&& final(self).is_backward_pass(old(self), outputs@, targets@)
                },
                Err(e) => {
                    &&& *final(self) == *old(self)
                    &&& if targets@.len() != old(self).layers@.last() {
                        e == NetworkError::TargetSizeMismatch
                    } else {
                        e == NetworkError::ShapeMismatch && outputs@.len() != targets@.len()
                    }
                },
            },
    {
        let n = self.layers.len() - 1;
        if targets.len() != self.layers[n] {
            return Err(NetworkError::TargetSizeMismatch);
        }
        let ghost outs = outputs@;
        let ghost tgts = targets@;
        let parsed = to_column(outputs);
        let mut errors = match to_column(targets).subtract(&parsed) {
            Ok(m) => m,
            Err(e) => return Err(e),
        };
        let mut gradients = parsed.map(&self.activation.derivative);
        let lr = self.learning_rate;
        let scale = |x: T| -> (y: T)
            requires
                x.mul_req(lr),
            ensures
                call_ensures(T::mul, (x, lr), y),
            { x * lr };
        let ghost mut errs: Seq<Grid<T>> = Seq::new((n + 1) as nat, |k: int| errors@);
        let ghost mut dgs: Seq<Grid<T>> = Seq::new((n + 1) as nat, |k: int| gradients@);
        let ghost mut hads: Seq<Grid<T>> = Seq::new(n as nat, |k: int| errors@);
        let ghost mut gs: Seq<Grid<T>> = Seq::new(n as nat, |k: int| errors@);
        let ghost mut deltas: Seq<Grid<T>> = Seq::new(n as nat, |k: int| errors@);
        let mut l: usize = n;
        while l > 0
            invariant
                self.wf(),
                self.cache_ready(),
                self.layers == old(self).layers,
                self.data == old(self).data,
                self.learning_rate == old(self).learning_rate,
                self.activation == old(self).activation,
                add_total::<T>(),
                sub_total::<T>(),
                mul_total::<T>(),
                lr == self.learning_rate,
                forall|x: T, y: T| scale.ensures((x,), y) ==> #[trigger] call_ensures(T::mul, (x, lr), y),
                forall|x: T| #[trigger] scale.requires((x,)) <== x.mul_req(lr),
                n == self.depth(),
                l <= n,
                errs.len() == n + 1,
                dgs.len() == n + 1,
                hads.len() == n,
                gs.len() == n,
                deltas.len() == n,
                is_difference(column_of(tgts), column_of(outs), errs[n as int]),
                is_mapped(column_of(outs), old(self).activation.derivative, dgs[n as int]),
                errors@ == errs[l as int],
                gradients@ == dgs[l as int],
                errors.wf(),
                errors.rows == self.layers@[l as int],
                errors.cols == 1,
                gradients.wf(),
                gradients.rows == self.layers@[l as int],
                gradients.cols == 1,
                forall|k: int|
                    0 <= k < l ==> #[trigger] self.weights@[k] == old(self).weights@[k]
                        && self.biases@[k] == old(self).biases@[k],
                forall|k: int|
                    l <= k < n ==> #[trigger] self.backward_step(old(self), k, errs, dgs, hads, gs, deltas),
            decreases l,
        {
            let i = l - 1;
            let had = match gradients.dot_multiply(&errors) {
                Ok(m) => m,
                Err(e) => return Err(e),
            };
            let g = had.map(&scale);
            let dt = self.data[i].transpose();
            let delta = match g.multiply(&dt) {
                Ok(m) => m,
                Err(e) => return Err(e),
            };
            let new_w = match self.weights[i].add(&delta) {
                Ok(m) => m,
                Err(e) => return Err(e),
            };
            let new_b = match self.biases[i].add(&g) {
                Ok(m) => m,
                Err(e) => return Err(e),
            };
            let wt = self.weights[i].transpose();
            let new_errors = match wt.multiply(&errors) {
                Ok(m) => m,
                Err(e) => return Err(e),
            };
            let new_gradients = self.data[i].map(&self.activation.derivative);
            assert(is_scaled(had@, lr, g@));
            let ghost prev = *self;
            let ghost (e0, d0, h0, g0, t0) = (errs, dgs, hads, gs, deltas);
            self.weights[i] = new_w;
            self.biases[i] = new_b;
            proof {
                errs = errs.update(i as int, new_errors@);
                dgs = dgs.update(i as int, new_gradients@);
                hads = hads.update(i as int, had@);
                gs = gs.update(i as int, g@);
                deltas = deltas.update(i as int, delta@);
                assert(self.backward_step(old(self), i as int, errs, dgs, hads, gs, deltas));
                assert forall|k: int| 0 <= k < i implies #[trigger] self.weights@[k] == old(
                    self,
                ).weights@[k] && self.biases@[k] == old(self).biases@[k] by {
                    assert(self.weights@[k] == prev.weights@[k]);
                    assert(self.biases@[k] == prev.biases@[k]);
                }
                assert forall|k: int| l <= k < n implies #[trigger] self.backward_step(
                    old(self),
                    k,
                    errs,
                    dgs,
                    hads,
                    gs,
                    deltas,
                ) by {
                    assert(prev.backward_step(old(self), k, e0, d0, h0, g0, t0));
                    assert(self.weights@[k] == prev.weights@[k]);
                    assert(self.biases@[k] == prev.biases@[k]);
                }
            }
            errors = new_errors;
            gradients = new_gradients;
            l = i;
        }
        assert(self.backward_chain(old(self), outs, tgts, errs, dgs, hads, gs, deltas));
        Ok(())
    }


    /// One epoch: trains on every example in order, stopping at the first that does not fit.
    fn train_epoch(&mut self, inputs: &Vec<Vec<T>>, targets: &Vec<Vec<T>>) -> (r: Result<
        (),
        NetworkError,
    >) where
        T: Default + std::ops::Add<Output = T> + std::ops::Sub<Output = T> + std::ops::Mul<Output = T>,
        requires
            old(self).wf(),
            inputs@.len() == targets@.len(),
            add_total::<T>(),
            sub_total::<T>(),
            mul_total::<T>(),
        ensures
            final(self).wf(),
            final(self).layers == old(self).layers,
            final(self).learning_rate == old(self).learning_rate,
            final(self).activation == old(self).activation,
            match r {
                Ok(()) => {
                    &&& old(self).all_fit(inputs@, targets@)
                    &&& exists|states: Seq<Self>|
                        #[trigger] Self::is_epoch(states, inputs@, targets@) && states[0] == *old(self)
                            && states.last() == *final(self)
                },
                Err(e) => Self::stopped_at_misfit(*old(self), *final(self), inputs@, targets@, e),
            },
    {
        let ghost mut states: Seq<Self> = seq![*self];
        let mut j: usize = 0;
        while j < inputs.len()
            invariant
                self.wf(),
                self.layers == old(self).layers,
                self.learning_rate == old(self).learning_rate,
                self.activation == old(self).activation,
                inputs@.len() == targets@.len(),
                add_total::<T>(),
                sub_total::<T>(),
                mul_total::<T>(),
                j <= inputs@.len(),
                states.len() == j + 1,
                states[0] == *old(self),
                states.last() == *self,
                forall|k: int| 0 <= k < j ==> #[trigger] old(self).example_fits(inputs@, targets@, k),
                forall|k: int|
                    0 <= k < j ==> Self::is_training_step(
                        #[trigger] states[k],
                        states[k + 1],
                        inputs@[k]@,
                        targets@[k]@,
                    ),
            decreases inputs@.len() - j,
        {
            let ghost start = *self;
            let outputs = match self.feed_forward(copy_of(&inputs[j])) {
                Ok(o) => o,
                Err(e) => {
                    assert(!old(self).example_fits(inputs@, targets@, j as int));
                    assert(old(self).is_first_misfit(inputs@, targets@, j as int, e));
                    assert(Self::is_partial_epoch(states, inputs@, targets@, j as int));
                    assert(self.same_parameters(&states.last()));
                    return Err(e);
                },
            };
            let ghost mid = *self;
            match self.back_propogate(outputs, copy_of(&targets[j])) {
                Ok(()) => {},
                Err(e) => {
                    assert(!old(self).example_fits(inputs@, targets@, j as int));
                    assert(old(self).is_first_misfit(inputs@, targets@, j as int, e));
                    assert(Self::is_partial_epoch(states, inputs@, targets@, j as int));
                    assert(self.same_parameters(&states.last()));
                    return Err(e);
                },
            }
            assert(old(self).example_fits(inputs@, targets@, j as int));
            assert(Self::is_training_step(start, *self, inputs@[j as int]@, targets@[j as int]@)) by {
                assert(mid.is_forward_pass(inputs@[j as int]@));
            }
            proof {
                states = states.push(*self);
            }
            j += 1;
        }
        assert(Self::is_epoch(states, inputs@, targets@));
        Ok(())
    }

    /// Trains for `epochs + 1` epochs, each a pass over the examples in order (see
    /// `is_training_step`). `DatasetSizeMismatch`, with nothing changed, when `inputs` and
    /// `targets` differ in number; otherwise the error of the first example that does not fit,
    /// with the updates from the examples ahead of it kept.
    pub fn train(&mut self, inputs: Vec<Vec<T>>, targets: Vec<Vec<T>>, epochs: usize) -> (r: Result<
        (),
        NetworkError,
    >) where
        T: Default + std::ops::Add<Output = T> + std::ops::Sub<Output = T> + std::ops::Mul<Output = T>,
        requires
            old(self).wf(),
            add_total::<T>(),
            sub_total::<T>(),
            mul_total::<T>(),
        ensures
            final(self).wf(),
            final(self).layers == old(self).layers,
            final(self).learning_rate == old(self).learning_rate,
            final(self).activation == old(self).activation,
            match r {
                Ok(()) => {
                    &&& inputs@.len() == targets@.len()
                    &&& old(self).all_fit(inputs@, targets@)
                    &&& exists|runs: Seq<Seq<Self>>|
                        #[trigger] Self::is_run(runs, *old(self), *final(self), inputs@, targets@)
                            && runs.len() == epochs + 1
                },
                Err(e) => if inputs@.len() != targets@.len() {
                    e == NetworkError::DatasetSizeMismatch && *final(self) == *old(self)
                } else {
                    Self::stopped_at_misfit(*old(self), *final(self), inputs@, targets@, e)
                },
            },
    {
        if inputs.len() != targets.len() {
            return Err(NetworkError::DatasetSizeMismatch);
        }
        match self.train_epoch(&inputs, &targets) {
            Ok(()) => {},
            Err(e) => return Err(e),
        }
        let ghost first: Seq<Self> = choose|states: Seq<Self>|
            #[trigger] Self::is_epoch(states, inputs@, targets@) && states[0] == *old(self)
                && states.last() == *self;
        let ghost mut runs: Seq<Seq<Self>> = seq![first];
        let mut e: usize = 0;
        while e < epochs
            invariant
                self.wf(),
                self.layers == old(self).layers,
                self.learning_rate == old(self).learning_rate,
                self.activation == old(self).activation,
                inputs@.len() == targets@.len(),
                old(self).all_fit(inputs@, targets@),
                add_total::<T>(),
                sub_total::<T>(),
                mul_total::<T>(),
                e <= epochs,
                runs.len() == e + 1,
                Self::is_run(runs, *old(self), *self, inputs@, targets@),
            decreases epochs - e,
        {
            let ghost start = *self;
            match self.train_epoch(&inputs, &targets) {
                Ok(()) => {},
                Err(err) => {
                    assert(start.all_fit(inputs@, targets@)) by {
                        assert forall|j: int| 0 <= j < inputs@.len() implies #[trigger] start.example_fits(
                            inputs@,
                            targets@,
                            j,
                        ) by {
                            assert(old(self).example_fits(inputs@, targets@, j));
                        }
                    }
                    assert(false);
                    return Err(err);
                },
            }
            let ghost next: Seq<Self> = choose|states: Seq<Self>|
                #[trigger] Self::is_epoch(states, inputs@, targets@) && states[0] == start
                    && states.last() == *self;
            proof {
                let prev = runs;
                runs = runs.push(next);
                assert forall|k: int| 0 <= k < runs.len() implies Self::is_epoch(
                    #[trigger] runs[k],
                    inputs@,
                    targets@,
                ) by {
                    if k < prev.len() {
                        assert(runs[k] == prev[k]);
                    }
                }
                assert forall|k: int| 0 <= k < runs.len() - 1 implies (#[trigger] runs[k]).last()
                    == runs[k + 1][0] by {
                    if k < prev.len() - 1 {
                        assert(runs[k] == prev[k] && runs[k + 1] == prev[k + 1]);
                    }
                }
            }
            e += 1;
        }
        Ok(())
    }

}

} // verus!
