//! The network itself: parameter representation, forward inference (`query`)
//! and the backward training update (`train`).

use vstd::prelude::*;

verus! {

/// The scalar arithmetic a network computes with.
///
/// The network's algebra (matrix-vector products, elementwise products,
/// sigmoid activation, scaled accumulation) is written once, here, against
/// these operations; the caller decides what a scalar is. Each executable
/// operation is pinned to an abstract spec-level counterpart, so every
/// contract in this crate states exactly which scalars are combined, and how
/// — while the scalar values themselves stay abstract. This trait is the
/// crate's trusted boundary: the intended implementation is floating point,
/// which cannot stand in verified code, so its impl lives outside the crate
/// and is not verified. The contracts here are definitional (each operation
/// equals its own abstraction), so any deterministic impl meets them; the one
/// substantive obligation is [`Scalar::lemma_bits_round_trip`], which an
/// IEEE 754 bit encoding satisfies exactly.
pub trait Scalar: Sized + Copy {
    /// What addition returns, as an abstract value.
    spec fn spec_plus(self, other: Self) -> Self;

    /// What subtraction returns, as an abstract value.
    spec fn spec_minus(self, other: Self) -> Self;

    /// What multiplication returns, as an abstract value.
    spec fn spec_times(self, other: Self) -> Self;

    /// What the sigmoid returns, as an abstract value.
    spec fn spec_sigmoid(self) -> Self;

    /// What `1 - x` returns, as an abstract value.
    spec fn spec_complement(self) -> Self;

    /// The scalar's 64-bit encoding, as an abstract value.
    spec fn spec_to_bits(self) -> u64;

    /// The scalar a 64-bit encoding decodes to, as an abstract value.
    spec fn spec_from_bits(bits: u64) -> Self;

    /// Decoding inverts encoding exactly: the one law the crate asks of a
    /// scalar, and what makes persistence lossless. An IEEE 754 bit encoding
    /// (`f64::to_bits` / `f64::from_bits`) satisfies it bit for bit.
    proof fn lemma_bits_round_trip(x: Self)
        ensures
            Self::spec_from_bits(x.spec_to_bits()) == x,
    ;

    /// Addition.
    fn plus(self, other: Self) -> (r: Self)
        ensures
            r == self.spec_plus(other),
    ;

    /// Subtraction.
    fn minus(self, other: Self) -> (r: Self)
        ensures
            r == self.spec_minus(other),
    ;

    /// Multiplication.
    fn times(self, other: Self) -> (r: Self)
        ensures
            r == self.spec_times(other),
    ;

    /// The logistic function `1 / (1 + e^-x)`.
    fn sigmoid(self) -> (r: Self)
        ensures
            r == self.spec_sigmoid(),
    ;

    /// `1 - x`, the factor beside `x` in the sigmoid derivative.
    fn complement(self) -> (r: Self)
        ensures
            r == self.spec_complement(),
    ;

    /// The scalar's 64-bit encoding (for floating point, its IEEE 754 bits),
    /// used when a network's state is persisted.
    fn to_bits(self) -> (r: u64)
        ensures
            r == self.spec_to_bits(),
    ;

    /// Rebuilds a scalar from its 64-bit encoding; the inverse of `to_bits`.
    fn from_bits(bits: u64) -> (r: Self)
        ensures
            r == Self::spec_from_bits(bits),
    ;
}

/// Why a call was refused: the error taxonomy is shape errors (an input or
/// target vector whose length does not match the configured sizes) and
/// persistence errors (an encoded state whose dimensions are inconsistent).
#[derive(Clone, Copy, Debug, PartialEq, Eq, Structural)]
pub enum NetError {
    /// An input vector's length differs from the configured input size.
    InputLength,
    /// A target vector's length differs from the configured output size.
    TargetLength,
    /// A class label at or beyond the configured output size.
    LabelRange,
    /// Matrix dimensions are inconsistent with the declared layer sizes.
    DimensionMismatch,
    /// An encoded network state is malformed.
    Encoding,
}

/// A multilayer perceptron with exactly two trainable weight matrices.
///
/// `wih` has shape `hidden_nodes x input_nodes` (weights from the input layer
/// to the hidden layer) and `who` has shape `output_nodes x hidden_nodes`
/// (weights from the hidden layer to the output layer). The shapes are fixed
/// at construction and never change; `training_rate` is never mutated.
#[derive(Debug)]
#[verifier::ext_equal]
pub struct NeuralNet<S> {
    /// Number of input nodes; every query/train input has this length.
    pub input_nodes: usize,
    /// Number of hidden nodes.
    pub hidden_nodes: usize,
    /// Number of output nodes; every query result has this length.
    pub output_nodes: usize,
    /// Scales every weight update; fixed at construction.
    pub training_rate: S,
    /// Input-to-hidden weights, one row per hidden node.
    pub wih: Vec<Vec<S>>,
    /// Hidden-to-output weights, one row per output node.
    pub who: Vec<Vec<S>>,
}

/// `m` is a `rows x cols` matrix: `rows` rows, each of length `cols`.
pub open spec fn matrix_wf<S>(m: Seq<Vec<S>>, rows: int, cols: int) -> bool {
    &&& m.len() == rows
    &&& forall|r: int| 0 <= r < rows ==> (#[trigger] m[r])@.len() == cols
}

impl<S> NeuralNet<S> {
    /// The structural invariant: positive layer sizes and weight matrices of
    /// exactly the shapes those sizes dictate.
    pub open spec fn wf(self) -> bool {
        &&& 0 < self.input_nodes
        &&& 0 < self.hidden_nodes
        &&& 0 < self.output_nodes
        &&& matrix_wf(self.wih@, self.hidden_nodes as int, self.input_nodes as int)
        &&& matrix_wf(self.who@, self.output_nodes as int, self.hidden_nodes as int)
    }
}

/// A matrix's rows as plain sequences: its whole content, independent of the
/// vectors that carry it.
pub open spec fn mat_view<S>(m: Seq<Vec<S>>) -> Seq<Seq<S>> {
    m.map_values(|row: Vec<S>| row@)
}

/// The dot product of `row` and `values` over the abstract scalar,
/// accumulated left to right from the first product, exactly as the
/// executable loops compute it.
pub open spec fn spec_dot<S: Scalar>(row: Seq<S>, values: Seq<S>) -> S
    recommends
        row.len() == values.len(),
        0 < values.len(),
    decreases values.len(),
{
    if values.len() <= 1 {
        row[0].spec_times(values[0])
    } else {
        spec_dot(row.drop_last(), values.drop_last()).spec_plus(
            row[values.len() - 1].spec_times(values[values.len() - 1]),
        )
    }
}

/// One layer of the forward pass: the matrix-vector product followed by the
/// elementwise sigmoid.
pub open spec fn spec_layer<S: Scalar>(weights: Seq<Seq<S>>, values: Seq<S>) -> Seq<S> {
    Seq::new(weights.len(), |r: int| spec_dot(weights[r], values).spec_sigmoid())
}

/// Elementwise difference `a - b`.
pub open spec fn spec_sub<S: Scalar>(a: Seq<S>, b: Seq<S>) -> Seq<S>
    recommends
        a.len() == b.len(),
{
    Seq::new(a.len(), |i: int| a[i].spec_minus(b[i]))
}

/// The delta rule's local gradient terms: `errors[i] * outputs[i] *
/// (1 - outputs[i])` elementwise.
pub open spec fn spec_grad<S: Scalar>(errors: Seq<S>, outputs: Seq<S>) -> Seq<S>
    recommends
        errors.len() == outputs.len(),
{
    Seq::new(errors.len(), |i: int| errors[i].spec_times(outputs[i]).spec_times(
        outputs[i].spec_complement(),
    ))
}

/// The dot product of `errors` with column `k` of `weights`, accumulated left
/// to right as the executable loop computes it.
pub open spec fn spec_col_dot<S: Scalar>(weights: Seq<Seq<S>>, errors: Seq<S>, k: int) -> S
    recommends
        weights.len() == errors.len(),
        0 < errors.len(),
    decreases errors.len(),
{
    if errors.len() <= 1 {
        weights[0][k].spec_times(errors[0])
    } else {
        spec_col_dot(weights.drop_last(), errors.drop_last(), k).spec_plus(
            weights[errors.len() - 1][k].spec_times(errors[errors.len() - 1]),
        )
    }
}

/// An error vector back-projected through the transpose of `weights`:
/// component `k` is the dot product of `errors` with column `k`.
pub open spec fn spec_backproject<S: Scalar>(weights: Seq<Seq<S>>, errors: Seq<S>, cols: int) -> Seq<
    S,
>
    recommends
        weights.len() == errors.len(),
        0 <= cols,
{
    Seq::new(cols as nat, |k: int| spec_col_dot(weights, errors, k))
}

/// One weight update: entry `(j, k)` becomes
/// `weights[j][k] + (grads[j] * inputs[k]) * rate`.
pub open spec fn spec_update<S: Scalar>(
    weights: Seq<Seq<S>>,
    grads: Seq<S>,
    inputs: Seq<S>,
    rate: S,
) -> Seq<Seq<S>>
    recommends
        weights.len() == grads.len(),
{
    Seq::new(weights.len(), |j: int| Seq::new(inputs.len(), |k: int| weights[j][k].spec_plus(
        grads[j].spec_times(inputs[k]).spec_times(rate),
    )))
}

/// The one-hot-like target for a class label: `hot` at the label's index,
/// `cold` everywhere else.
pub open spec fn spec_target<S: Scalar>(label: int, size: int, hot: S, cold: S) -> Seq<S>
    recommends
        0 <= label < size,
{
    Seq::new(size as nat, |j: int| if j == label { hot } else { cold })
}

/// One backpropagation step of the simplified delta rule, on the weight
/// matrices' contents: the full forward pass, the raw output error
/// `target - output`, its unscaled back-projection through the transposed
/// output weights, and both learning-rate-scaled outer-product updates.
pub open spec fn spec_train_step<S: Scalar>(
    wih: Seq<Seq<S>>,
    who: Seq<Seq<S>>,
    rate: S,
    input: Seq<S>,
    target: Seq<S>,
) -> (Seq<Seq<S>>, Seq<Seq<S>>) {
    let h = spec_layer(wih, input);
    let o = spec_layer(who, h);
    let e = spec_sub(target, o);
    let wih2 = spec_update(wih, spec_grad(spec_backproject(who, e, wih.len() as int), h), input,
        rate);
    let who2 = spec_update(who, spec_grad(e, o), h, rate);
    (wih2, who2)
}

/// One full pass of training: [`spec_train_step`] folded, in order, over the
/// first `n` examples, each against the target that is `hot` at its label and
/// `cold` elsewhere.
pub open spec fn spec_train_pass<S: Scalar>(
    wih: Seq<Seq<S>>,
    who: Seq<Seq<S>>,
    rate: S,
    inputs: Seq<Vec<S>>,
    labels: Seq<usize>,
    hot: S,
    cold: S,
    n: int,
) -> (Seq<Seq<S>>, Seq<Seq<S>>)
    recommends
        inputs.len() == labels.len(),
        0 <= n <= inputs.len(),
    decreases n,
{
    if n <= 0 {
        (wih, who)
    } else {
        let prev = spec_train_pass(wih, who, rate, inputs, labels, hot, cold, n - 1);
        spec_train_step(prev.0, prev.1, rate, inputs[n - 1]@, spec_target(labels[n - 1] as int,
            prev.1.len() as int, hot, cold))
    }
}

/// `epochs` full passes of training over the whole example set, in order.
pub open spec fn spec_train_epochs<S: Scalar>(
    wih: Seq<Seq<S>>,
    who: Seq<Seq<S>>,
    rate: S,
    inputs: Seq<Vec<S>>,
    labels: Seq<usize>,
    hot: S,
    cold: S,
    epochs: int,
) -> (Seq<Seq<S>>, Seq<Seq<S>>)
    recommends
        inputs.len() == labels.len(),
    decreases epochs,
{
    if epochs <= 0 {
        (wih, who)
    } else {
        let prev = spec_train_epochs(wih, who, rate, inputs, labels, hot, cold, epochs - 1);
        spec_train_pass(prev.0, prev.1, rate, inputs, labels, hot, cold, inputs.len() as int)
    }
}

impl<S: Scalar> NeuralNet<S> {
    /// What `query` returns: `sigmoid(who * sigmoid(wih * values))`, a pure
    /// function of the weight matrices' contents and the input alone.
    pub open spec fn spec_query(self, values: Seq<S>) -> Seq<S> {
        spec_layer(mat_view(self.who@), spec_layer(mat_view(self.wih@), values))
    }

    /// What `classify` returns: the index of the largest query output under
    /// the `spec_to_bits` key order, ties to the lowest index.
    pub open spec fn spec_classify(self, values: Seq<S>) -> int {
        crate::metrics::spec_argmax(
            Seq::new(self.spec_query(values).len(), |j: int| self.spec_query(values)[j]
                .spec_to_bits()),
        )
    }

    /// How many of the first `k` examples classify as their label.
    pub open spec fn spec_correct_count(
        self,
        inputs: Seq<Vec<S>>,
        labels: Seq<usize>,
        k: int,
    ) -> int
        recommends
            inputs.len() == labels.len(),
            0 <= k <= inputs.len(),
        decreases k,
    {
        if k <= 0 {
            0
        } else {
            self.spec_correct_count(inputs, labels, k - 1) + if self.spec_classify(inputs[k - 1]@)
                == labels[k - 1] as int {
                1int
            } else {
                0int
            }
        }
    }
}

/// Does `m` have exactly `rows` rows, each of length `cols`?
fn matrix_has_shape<S>(m: &Vec<Vec<S>>, rows: usize, cols: usize) -> (r: bool)
    ensures
        r == matrix_wf(m@, rows as int, cols as int),
{
    if m.len() != rows {
        return false;
    }
    let mut i: usize = 0;
    while i < rows
        invariant
            i <= rows,
            m@.len() == rows,
            forall|r: int| 0 <= r < i ==> (#[trigger] m@[r])@.len() == cols,
        decreases rows - i,
    {
        if m[i].len() != cols {
            return false;
        }
        i += 1;
    }
    true
}

/// Builds a `rows x cols` matrix row-major from `samples`, starting at
/// `offset`: entry `(r, c)` is `samples[offset + r * cols + c]`.
fn build_matrix<S: Scalar>(samples: &Vec<S>, rows: usize, cols: usize, offset: usize) -> (m: Vec<
    Vec<S>,
>)
    requires
        offset + rows * cols <= samples@.len(),
    ensures
        matrix_wf(m@, rows as int, cols as int),
        forall|r: int, c: int|
            0 <= r < rows && 0 <= c < cols ==> #[trigger] m@[r]@[c] == samples@[offset + r * cols
                + c],
{
    let total: usize = samples.len();
    let mut m: Vec<Vec<S>> = Vec::new();
    let mut idx: usize = offset;
    let mut r: usize = 0;
    while r < rows
        invariant
            r <= rows,
            idx == offset + r * cols,
            offset + rows * cols <= samples@.len(),
            samples@.len() <= usize::MAX,
            m@.len() == r,
            forall|rr: int| 0 <= rr < r ==> (#[trigger] m@[rr])@.len() == cols,
            forall|rr: int, cc: int|
                0 <= rr < r && 0 <= cc < cols ==> #[trigger] m@[rr]@[cc] == samples@[offset + rr
                    * cols + cc],
        decreases rows - r,
    {
        let mut row: Vec<S> = Vec::new();
        let mut c: usize = 0;
        while c < cols
            invariant
                c <= cols,
                r < rows,
                idx == offset + r * cols + c,
                offset + rows * cols <= samples@.len(),
                samples@.len() <= usize::MAX,
                row@.len() == c,
                forall|cc: int|
                    0 <= cc < c ==> #[trigger] row@[cc] == samples@[offset + r * cols + cc],
            decreases cols - c,
        {
            proof {
                assert(r * cols + c < rows * cols) by (nonlinear_arith)
                    requires
                        r < rows,
                        c < cols,
                        0 <= r,
                        0 <= c,
                ;
            }
            row.push(samples[idx]);
            idx += 1;
            c += 1;
        }
        proof {
            assert((r + 1) * cols == r * cols + cols) by (nonlinear_arith);
        }
        m.push(row);
        r += 1;
    }
    m
}

/// One layer of the forward pass: the matrix-vector product `weights *
/// values` followed by the elementwise sigmoid activation.
fn layer_forward<S: Scalar>(weights: &Vec<Vec<S>>, values: &Vec<S>) -> (out: Vec<S>)
    requires
        0 < values@.len(),
        forall|r: int|
            0 <= r < weights@.len() ==> (#[trigger] weights@[r])@.len() == values@.len(),
    ensures
        out@.len() == weights@.len(),
        out@ == spec_layer(mat_view(weights@), values@),
{
    let rows: usize = weights.len();
    let cols: usize = values.len();
    let mut out: Vec<S> = Vec::new();
    let mut r: usize = 0;
    while r < rows
        invariant
            r <= rows,
            rows == weights@.len(),
            cols == values@.len(),
            0 < cols,
            forall|rr: int| 0 <= rr < rows ==> (#[trigger] weights@[rr])@.len() == cols,
            out@.len() == r,
            forall|rr: int|
                0 <= rr < r ==> #[trigger] out@[rr] == spec_dot(weights@[rr]@, values@)
                    .spec_sigmoid(),
        decreases rows - r,
    {
        let row = &weights[r];
        let mut acc: S = row[0].times(values[0]);
        let mut c: usize = 1;
        proof {
            assert(row@.take(1)[0] == row@[0] && values@.take(1)[0] == values@[0]);
            assert(acc == spec_dot(row@.take(1), values@.take(1)));
        }
        while c < cols
            invariant
                1 <= c <= cols,
                cols == values@.len(),
                row@.len() == cols,
                acc == spec_dot(row@.take(c as int), values@.take(c as int)),
            decreases cols - c,
        {
            proof {
                assert(row@.take(c as int + 1).drop_last() =~= row@.take(c as int));
                assert(values@.take(c as int + 1).drop_last() =~= values@.take(c as int));
                assert(row@.take(c as int + 1)[c as int] == row@[c as int]);
                assert(values@.take(c as int + 1)[c as int] == values@[c as int]);
            }
            acc = acc.plus(row[c].times(values[c]));
            c += 1;
        }
        proof {
            assert(row@.take(cols as int) =~= row@);
            assert(values@.take(cols as int) =~= values@);
        }
        out.push(acc.sigmoid());
        r += 1;
    }
    proof {
        assert(out@ =~= spec_layer(mat_view(weights@), values@));
    }
    out
}

/// Elementwise difference `a - b`.
fn sub_vec<S: Scalar>(a: &Vec<S>, b: &Vec<S>) -> (r: Vec<S>)
    requires
        a@.len() == b@.len(),
    ensures
        r@.len() == a@.len(),
        r@ == spec_sub(a@, b@),
{
    let n: usize = a.len();
    let mut r: Vec<S> = Vec::new();
    let mut i: usize = 0;
    while i < n
        invariant
            i <= n,
            n == a@.len(),
            n == b@.len(),
            r@.len() == i,
            forall|j: int| 0 <= j < i ==> #[trigger] r@[j] == a@[j].spec_minus(b@[j]),
        decreases n - i,
    {
        r.push(a[i].minus(b[i]));
        i += 1;
    }
    proof {
        assert(r@ =~= spec_sub(a@, b@));
    }
    r
}

/// Back-projects an error vector through the transpose of `weights`:
/// component `k` of the result is the dot product of `errors` with column `k`
/// of `weights` (no derivative scaling; the raw error is carried back).
fn backproject<S: Scalar>(weights: &Vec<Vec<S>>, errors: &Vec<S>, cols: usize) -> (r: Vec<S>)
    requires
        0 < errors@.len(),
        weights@.len() == errors@.len(),
        forall|j: int| 0 <= j < weights@.len() ==> (#[trigger] weights@[j])@.len() == cols,
    ensures
        r@.len() == cols,
        r@ == spec_backproject(mat_view(weights@), errors@, cols as int),
{
    let rows: usize = errors.len();
    let mut r: Vec<S> = Vec::new();
    let mut k: usize = 0;
    while k < cols
        invariant
            k <= cols,
            rows == weights@.len(),
            rows == errors@.len(),
            0 < rows,
            forall|j: int| 0 <= j < rows ==> (#[trigger] weights@[j])@.len() == cols,
            r@.len() == k,
            forall|kk: int|
                0 <= kk < k ==> #[trigger] r@[kk] == spec_col_dot(mat_view(weights@), errors@, kk),
        decreases cols - k,
    {
        let mut acc: S = weights[0][k].times(errors[0]);
        let mut j: usize = 1;
        proof {
            assert(mat_view(weights@).take(1)[0] == weights@[0]@);
            assert(errors@.take(1)[0] == errors@[0]);
            assert(acc == spec_col_dot(mat_view(weights@).take(1), errors@.take(1), k as int));
        }
        while j < rows
            invariant
                1 <= j <= rows,
                k < cols,
                rows == weights@.len(),
                rows == errors@.len(),
                forall|jj: int| 0 <= jj < rows ==> (#[trigger] weights@[jj])@.len() == cols,
                acc == spec_col_dot(mat_view(weights@).take(j as int), errors@.take(j as int),
                    k as int),
            decreases rows - j,
        {
            proof {
                assert(mat_view(weights@).take(j as int + 1).drop_last() =~= mat_view(
                    weights@,
                ).take(j as int));
                assert(errors@.take(j as int + 1).drop_last() =~= errors@.take(j as int));
                assert(mat_view(weights@).take(j as int + 1)[j as int] == weights@[j as int]@);
                assert(errors@.take(j as int + 1)[j as int] == errors@[j as int]);
            }
            acc = acc.plus(weights[j][k].times(errors[j]));
            j += 1;
        }
        proof {
            assert(mat_view(weights@).take(rows as int) =~= mat_view(weights@));
            assert(errors@.take(rows as int) =~= errors@);
        }
        r.push(acc);
        k += 1;
    }
    proof {
        assert(r@ =~= spec_backproject(mat_view(weights@), errors@, cols as int));
    }
    r
}

/// The local gradient terms of the delta rule: component `i` is
/// `errors[i] * outputs[i] * (1 - outputs[i])`.
fn grad_terms<S: Scalar>(errors: &Vec<S>, outputs: &Vec<S>) -> (r: Vec<S>)
    requires
        errors@.len() == outputs@.len(),
    ensures
        r@.len() == errors@.len(),
        r@ == spec_grad(errors@, outputs@),
{
    let n: usize = errors.len();
    let mut r: Vec<S> = Vec::new();
    let mut i: usize = 0;
    while i < n
        invariant
            i <= n,
            n == errors@.len(),
            n == outputs@.len(),
            r@.len() == i,
            forall|j: int|
                0 <= j < i ==> #[trigger] r@[j] == errors@[j].spec_times(outputs@[j]).spec_times(
                    outputs@[j].spec_complement(),
                ),
        decreases n - i,
    {
        r.push(errors[i].times(outputs[i]).times(outputs[i].complement()));
        i += 1;
    }
    proof {
        assert(r@ =~= spec_grad(errors@, outputs@));
    }
    r
}

/// The scaled-accumulation step of one weight update: entry `(j, k)` of the
/// result is `weights[j][k] + (grads[j] * inputs[k]) * rate`, the old weight
/// plus the learning-rate-scaled outer product of the gradient terms with the
/// layer's input activations.
fn apply_update<S: Scalar>(weights: &Vec<Vec<S>>, grads: &Vec<S>, inputs: &Vec<S>, rate: S) -> (r:
    Vec<Vec<S>>)
    requires
        weights@.len() == grads@.len(),
        forall|j: int|
            0 <= j < weights@.len() ==> (#[trigger] weights@[j])@.len() == inputs@.len(),
    ensures
        matrix_wf(r@, weights@.len() as int, inputs@.len() as int),
        mat_view(r@) == spec_update(mat_view(weights@), grads@, inputs@, rate),
{
    let rows: usize = grads.len();
    let cols: usize = inputs.len();
    let mut r: Vec<Vec<S>> = Vec::new();
    let mut j: usize = 0;
    while j < rows
        invariant
            j <= rows,
            rows == weights@.len(),
            rows == grads@.len(),
            cols == inputs@.len(),
            forall|jj: int| 0 <= jj < rows ==> (#[trigger] weights@[jj])@.len() == cols,
            r@.len() == j,
            forall|jj: int| 0 <= jj < j ==> (#[trigger] r@[jj])@.len() == cols,
            forall|jj: int|
                0 <= jj < j ==> (#[trigger] r@[jj])@ == spec_update(mat_view(weights@), grads@,
                    inputs@, rate)[jj],
        decreases rows - j,
    {
        let mut row: Vec<S> = Vec::new();
        let mut k: usize = 0;
        while k < cols
            invariant
                k <= cols,
                j < rows,
                rows == weights@.len(),
                rows == grads@.len(),
                cols == inputs@.len(),
                forall|jj: int| 0 <= jj < rows ==> (#[trigger] weights@[jj])@.len() == cols,
                row@.len() == k,
                forall|kk: int|
                    0 <= kk < k ==> #[trigger] row@[kk] == weights@[j as int]@[kk].spec_plus(
                        grads@[j as int].spec_times(inputs@[kk]).spec_times(rate),
                    ),
            decreases cols - k,
        {
            row.push(weights[j][k].plus(grads[j].times(inputs[k]).times(rate)));
            k += 1;
        }
        proof {
            assert(mat_view(weights@)[j as int] == weights@[j as int]@);
            assert(row@ =~= spec_update(mat_view(weights@), grads@, inputs@, rate)[j as int]);
        }
        r.push(row);
        j += 1;
    }
    proof {
        assert(mat_view(r@) =~= spec_update(mat_view(weights@), grads@, inputs@, rate));
    }
    r
}

impl<S: Scalar> NeuralNet<S> {
    /// Constructs a network of the given layer sizes, populating `wih` and
    /// then `who` row-major from the supplied scalars. The caller provides
    /// the initial weights explicitly (ordinarily independent draws from a
    /// zero-mean Gaussian whose standard deviation is the destination layer's
    /// node count raised to `-0.5`), so construction itself is deterministic
    /// and contains no hidden entropy source.
    pub fn new(
        input_nodes: usize,
        hidden_nodes: usize,
        output_nodes: usize,
        training_rate: S,
        samples: Vec<S>,
    ) -> (n: NeuralNet<S>)
        requires
            0 < input_nodes,
            0 < hidden_nodes,
            0 < output_nodes,
            samples@.len() == hidden_nodes * input_nodes + output_nodes * hidden_nodes,
        ensures
            n.wf(),
            n.input_nodes == input_nodes,
            n.hidden_nodes == hidden_nodes,
            n.output_nodes == output_nodes,
            n.training_rate == training_rate,
            forall|r: int, c: int|
                0 <= r < hidden_nodes && 0 <= c < input_nodes ==> #[trigger] n.wih@[r]@[c]
                    == samples@[r * input_nodes + c],
            forall|r: int, c: int|
                0 <= r < output_nodes && 0 <= c < hidden_nodes ==> #[trigger] n.who@[r]@[c]
                    == samples@[hidden_nodes * input_nodes + r * hidden_nodes + c],
    {
        let total: usize = samples.len();
        proof {
            assert(0 <= output_nodes * hidden_nodes && 0 <= hidden_nodes * input_nodes)
                by (nonlinear_arith);
            assert(hidden_nodes * input_nodes <= total);
        }
        let split: usize = hidden_nodes * input_nodes;
        let wih = build_matrix(&samples, hidden_nodes, input_nodes, 0);
        let who = build_matrix(&samples, output_nodes, hidden_nodes, split);
        NeuralNet { input_nodes, hidden_nodes, output_nodes, training_rate, wih, who }
    }

    /// Assembles a network from already-built state, refusing dimensions that
    /// are inconsistent with the declared layer sizes. This is the only way a
    /// deserialized or otherwise untrusted state becomes a network, so no
    /// partial or corrupt network is ever returned.
    pub fn from_parts(
        input_nodes: usize,
        hidden_nodes: usize,
        output_nodes: usize,
        training_rate: S,
        wih: Vec<Vec<S>>,
        who: Vec<Vec<S>>,
    ) -> (r: Result<NeuralNet<S>, NetError>)
        ensures
            r is Ok <==> {
                &&& 0 < input_nodes
                &&& 0 < hidden_nodes
                &&& 0 < output_nodes
                &&& matrix_wf(wih@, hidden_nodes as int, input_nodes as int)
                &&& matrix_wf(who@, output_nodes as int, hidden_nodes as int)
            },
            r matches Ok(n) ==> n == (NeuralNet {
                input_nodes,
                hidden_nodes,
                output_nodes,
                training_rate,
                wih,
                who,
            }),
            r is Err ==> r matches Err(NetError::DimensionMismatch),
    {
        if input_nodes == 0 || hidden_nodes == 0 || output_nodes == 0 {
            return Err(NetError::DimensionMismatch);
        }
        if !matrix_has_shape(&wih, hidden_nodes, input_nodes) {
            return Err(NetError::DimensionMismatch);
        }
        if !matrix_has_shape(&who, output_nodes, hidden_nodes) {
            return Err(NetError::DimensionMismatch);
        }
        Ok(NeuralNet { input_nodes, hidden_nodes, output_nodes, training_rate, wih, who })
    }

    /// Forward inference: `sigmoid(who * sigmoid(wih * values))`, a pure
    /// function of the input vector and the current weights. An input whose
    /// length differs from the configured input size is refused outright.
    pub fn query(&self, values: &Vec<S>) -> (r: Result<Vec<S>, NetError>)
        requires
            self.wf(),
        ensures
            r is Ok <==> values@.len() == self.input_nodes,
            r matches Ok(out) ==> out@.len() == self.output_nodes,
            r matches Ok(out) ==> out@ == self.spec_query(values@),
            r is Err ==> (r matches Err(NetError::InputLength)),
    {
        if values.len() != self.input_nodes {
            return Err(NetError::InputLength);
        }
        let hidden_outputs = layer_forward(&self.wih, values);
        let final_outputs = layer_forward(&self.who, &hidden_outputs);
        Ok(final_outputs)
    }

    /// One backpropagation step of the simplified per-example delta rule.
    ///
    /// Recomputes the forward pass, takes the raw output error
    /// `targets - outputs`, back-projects it unscaled through the transposed
    /// output weights, and adds the learning-rate-scaled outer products of
    /// the two layers' gradient terms with their input activations onto `who`
    /// and `wih`. Layer sizes and the training rate never change; a
    /// mismatched input or target vector is refused before any state changes.
    pub fn train(&mut self, input_values: &Vec<S>, target_values: &Vec<S>) -> (r: Result<
        (),
        NetError,
    >)
        requires
            old(self).wf(),
        ensures
            final(self).wf(),
            final(self).input_nodes == old(self).input_nodes,
            final(self).hidden_nodes == old(self).hidden_nodes,
            final(self).output_nodes == old(self).output_nodes,
            final(self).training_rate == old(self).training_rate,
            r is Ok <==> (input_values@.len() == old(self).input_nodes && target_values@.len()
                == old(self).output_nodes),
            r is Ok ==> (mat_view(final(self).wih@), mat_view(final(self).who@))
                == spec_train_step(mat_view(old(self).wih@), mat_view(old(self).who@), old(
                self,
            ).training_rate, input_values@, target_values@),
            input_values@.len() != old(self).input_nodes ==> (r matches Err(
                NetError::InputLength,
            )) && *final(self) == *old(self),
            input_values@.len() == old(self).input_nodes && target_values@.len() != old(
                self,
            ).output_nodes ==> (r matches Err(NetError::TargetLength)) && *final(self) == *old(
                self,
            ),
    {
        if input_values.len() != self.input_nodes {
            return Err(NetError::InputLength);
        }
        if target_values.len() != self.output_nodes {
            return Err(NetError::TargetLength);
        }
        let hidden_outputs = layer_forward(&self.wih, input_values);
        let final_outputs = layer_forward(&self.who, &hidden_outputs);

        let output_errors = sub_vec(target_values, &final_outputs);
        let hidden_errors = backproject(&self.who, &output_errors, self.hidden_nodes);

        let output_grads = grad_terms(&output_errors, &final_outputs);
        self.who = apply_update(&self.who, &output_grads, &hidden_outputs, self.training_rate);

        let hidden_grads = grad_terms(&hidden_errors, &hidden_outputs);
        self.wih = apply_update(&self.wih, &hidden_grads, input_values, self.training_rate);

        Ok(())
    }

    /// The predicted class for an input: the index of the largest output,
    /// ties broken by the lowest index. Outputs are compared by their
    /// `to_bits` keys, whose integer order matches the value order for a
    /// sigmoid layer's positive floating-point outputs.
    pub fn classify(&self, values: &Vec<S>) -> (r: Result<usize, NetError>)
        requires
            self.wf(),
        ensures
            r is Ok <==> values@.len() == self.input_nodes,
            r matches Ok(c) ==> c < self.output_nodes,
            r matches Ok(c) ==> c == self.spec_classify(values@),
            r matches Ok(c) ==> (forall|j: int|
                0 <= j < self.output_nodes ==> (#[trigger] self.spec_query(values@)[j]
                    .spec_to_bits()) <= self.spec_query(values@)[c as int].spec_to_bits()),
            r matches Ok(c) ==> (forall|j: int|
                0 <= j < c ==> (#[trigger] self.spec_query(values@)[j].spec_to_bits())
                    < self.spec_query(values@)[c as int].spec_to_bits()),
            r is Err ==> (r matches Err(NetError::InputLength)),
    {
        let out = match self.query(values) {
            Ok(o) => o,
            Err(e) => {
                return Err(e);
            },
        };
        let mut keys: Vec<u64> = Vec::new();
        let mut i: usize = 0;
        while i < out.len()
            invariant
                i <= out@.len(),
                keys@.len() == i,
                forall|j: int| 0 <= j < i ==> #[trigger] keys@[j] == out@[j].spec_to_bits(),
            decreases out@.len() - i,
        {
            keys.push(out[i].to_bits());
            i += 1;
        }
        proof {
            assert(keys@ =~= Seq::new(self.spec_query(values@).len(), |j: int| self.spec_query(
                values@,
            )[j].spec_to_bits()));
        }
        let c = crate::metrics::argmax(&keys);
        proof {
            assert forall|j: int| 0 <= j < self.output_nodes implies (
            #[trigger] self.spec_query(values@)[j].spec_to_bits()) <= self.spec_query(
                values@,
            )[c as int].spec_to_bits() by {
                assert(keys@[j] == self.spec_query(values@)[j].spec_to_bits());
                assert(keys@[c as int] == self.spec_query(values@)[c as int].spec_to_bits());
            }
            assert forall|j: int| 0 <= j < c implies (#[trigger] self.spec_query(
                values@,
            )[j].spec_to_bits()) < self.spec_query(values@)[c as int].spec_to_bits() by {
                assert(keys@[j] == self.spec_query(values@)[j].spec_to_bits());
                assert(keys@[c as int] == self.spec_query(values@)[c as int].spec_to_bits());
            }
        }
        Ok(c)
    }

    /// Queries every example and counts the ones classified as their label;
    /// the caller turns the count into an accuracy percentage.
    pub fn evaluate(&self, inputs: &Vec<Vec<S>>, labels: &Vec<usize>) -> (r: Result<
        usize,
        NetError,
    >)
        requires
            self.wf(),
            inputs@.len() == labels@.len(),
        ensures
            r is Ok <==> (forall|k: int|
                0 <= k < inputs@.len() ==> (#[trigger] inputs@[k])@.len() == self.input_nodes),
            r matches Ok(c) ==> c <= inputs@.len(),
            r matches Ok(c) ==> c == self.spec_correct_count(inputs@, labels@, inputs@.len() as int),
            r is Err ==> (r matches Err(NetError::InputLength)),
    {
        let n: usize = inputs.len();
        let mut correct: usize = 0;
        let mut k: usize = 0;
        while k < n
            invariant
                k <= n,
                correct <= k,
                n == inputs@.len(),
                n == labels@.len(),
                self.wf(),
                correct == self.spec_correct_count(inputs@, labels@, k as int),
                forall|j: int|
                    0 <= j < k ==> (#[trigger] inputs@[j])@.len() == self.input_nodes,
            decreases n - k,
        {
            let predicted = match self.classify(&inputs[k]) {
                Ok(c) => c,
                Err(e) => {
                    return Err(e);
                },
            };
            if predicted == labels[k] {
                correct += 1;
            }
            k += 1;
        }
        Ok(correct)
    }

    /// The training driver: validates every example, then runs `epochs` full
    /// passes over the set, one `train` call per example, against targets
    /// that hold `hot` at the example's label and `cold` everywhere else. A
    /// set holding any example of the wrong length, or any label at or beyond
    /// the output size, is refused whole, before any weight changes.
    pub fn train_all(
        &mut self,
        inputs: &Vec<Vec<S>>,
        labels: &Vec<usize>,
        hot: S,
        cold: S,
        epochs: usize,
    ) -> (r: Result<(), NetError>)
        requires
            old(self).wf(),
            inputs@.len() == labels@.len(),
        ensures
            final(self).wf(),
            final(self).input_nodes == old(self).input_nodes,
            final(self).hidden_nodes == old(self).hidden_nodes,
            final(self).output_nodes == old(self).output_nodes,
            final(self).training_rate == old(self).training_rate,
            r is Ok <==> ((forall|k: int|
                0 <= k < inputs@.len() ==> (#[trigger] inputs@[k])@.len() == old(
                    self,
                ).input_nodes) && (forall|k: int|
                0 <= k < labels@.len() ==> #[trigger] labels@[k] < old(self).output_nodes)),
            r is Ok ==> (mat_view(final(self).wih@), mat_view(final(self).who@))
                == spec_train_epochs(mat_view(old(self).wih@), mat_view(old(self).who@), old(
                self,
            ).training_rate, inputs@, labels@, hot, cold, epochs as int),
            r is Err ==> *final(self) == *old(self),
            r matches Err(NetError::InputLength) ==> (exists|k: int|
                0 <= k < inputs@.len() && (#[trigger] inputs@[k])@.len() != old(self).input_nodes),
            r matches Err(NetError::LabelRange) ==> (exists|k: int|
                0 <= k < labels@.len() && (#[trigger] labels@[k]) >= old(self).output_nodes),
            r is Err ==> (r matches Err(NetError::InputLength) || r matches Err(
                NetError::LabelRange,
            )),
    {
        let n: usize = inputs.len();
        let mut k: usize = 0;
        while k < n
            invariant
                k <= n,
                n == inputs@.len(),
                n == labels@.len(),
                *self == *old(self),
                old(self).wf(),
                forall|j: int|
                    0 <= j < k ==> (#[trigger] inputs@[j])@.len() == old(self).input_nodes,
                forall|j: int| 0 <= j < k ==> #[trigger] labels@[j] < old(self).output_nodes,
            decreases n - k,
        {
            if inputs[k].len() != self.input_nodes {
                return Err(NetError::InputLength);
            }
            if labels[k] >= self.output_nodes {
                return Err(NetError::LabelRange);
            }
            k += 1;
        }
        let mut e: usize = 0;
        while e < epochs
            invariant
                e <= epochs,
                n == inputs@.len(),
                n == labels@.len(),
                self.wf(),
                self.input_nodes == old(self).input_nodes,
                self.hidden_nodes == old(self).hidden_nodes,
                self.output_nodes == old(self).output_nodes,
                self.training_rate == old(self).training_rate,
                forall|j: int|
                    0 <= j < n ==> (#[trigger] inputs@[j])@.len() == old(self).input_nodes,
                forall|j: int| 0 <= j < n ==> #[trigger] labels@[j] < old(self).output_nodes,
                (mat_view(self.wih@), mat_view(self.who@)) == spec_train_epochs(mat_view(
                    old(self).wih@,
                ), mat_view(old(self).who@), old(self).training_rate, inputs@, labels@, hot, cold,
                    e as int),
            decreases epochs - e,
        {
            let mut t: usize = 0;
            while t < n
                invariant
                    t <= n,
                    n == inputs@.len(),
                    n == labels@.len(),
                    self.wf(),
                    self.input_nodes == old(self).input_nodes,
                    self.hidden_nodes == old(self).hidden_nodes,
                    self.output_nodes == old(self).output_nodes,
                    self.training_rate == old(self).training_rate,
                    forall|j: int|
                        0 <= j < n ==> (#[trigger] inputs@[j])@.len() == old(self).input_nodes,
                    forall|j: int| 0 <= j < n ==> #[trigger] labels@[j] < old(self).output_nodes,
                    (mat_view(self.wih@), mat_view(self.who@)) == spec_train_pass(
                        spec_train_epochs(mat_view(old(self).wih@), mat_view(old(self).who@), old(
                            self,
                        ).training_rate, inputs@, labels@, hot, cold, e as int).0,
                        spec_train_epochs(mat_view(old(self).wih@), mat_view(old(self).who@), old(
                            self,
                        ).training_rate, inputs@, labels@, hot, cold, e as int).1,
                        old(self).training_rate,
                        inputs@,
                        labels@,
                        hot,
                        cold,
                        t as int,
                    ),
                decreases n - t,
            {
                let ghost pre = (mat_view(self.wih@), mat_view(self.who@));
                let target = crate::metrics::make_target(labels[t], self.output_nodes, hot, cold);
                let res = self.train(&inputs[t], &target);
                proof {
                    let rate = old(self).training_rate;
                    let ep = spec_train_epochs(mat_view(old(self).wih@), mat_view(old(self).who@),
                        rate, inputs@, labels@, hot, cold, e as int);
                    assert(res is Ok);
                    assert(pre.1.len() == old(self).output_nodes);
                    assert((mat_view(self.wih@), mat_view(self.who@)) == spec_train_step(pre.0,
                        pre.1, rate, inputs@[t as int]@, target@));
                    assert(spec_train_pass(ep.0, ep.1, rate, inputs@, labels@, hot, cold, t as int
                        + 1) == spec_train_step(pre.0, pre.1, rate, inputs@[t as int]@,
                        spec_target(labels@[t as int] as int, pre.1.len() as int, hot, cold)));
                }
                t += 1;
            }
            e += 1;
        }
        Ok(())
    }
}

} // verus!
