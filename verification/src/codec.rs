//! Lossless encoding of a network's full state as a flat word stream.
//!
//! The frame is `[input_nodes, hidden_nodes, output_nodes, training_rate,
//! wih row-major, who row-major]`, every entry one `u64` (scalars by their
//! [`crate::network::Scalar::to_bits`] encoding). Decoding refuses any
//! stream whose dimensions are inconsistent with its declared layer sizes,
//! so no partial or corrupt network is ever produced.

use crate::network::mat_view;
use crate::network::matrix_wf;
use crate::network::NetError;
use crate::network::NeuralNet;
use crate::network::Scalar;
use vstd::prelude::*;

verus! {

/// The words of a weight matrix, row-major.
pub open spec fn mat_words(m: Seq<Vec<u64>>) -> Seq<u64>
    decreases m.len(),
{
    if m.len() == 0 {
        Seq::<u64>::empty()
    } else {
        m[0]@ + mat_words(m.drop_first())
    }
}

/// The rows of a matrix as plain sequences: the matrix's whole content,
/// independent of the vectors that carry it.
pub open spec fn mat_seq(m: Seq<Vec<u64>>) -> Seq<Seq<u64>> {
    m.map_values(|row: Vec<u64>| row@)
}

/// The full encoded frame of a network state.
pub open spec fn spec_encode(n: NeuralNet<u64>) -> Seq<u64> {
    seq![
        n.input_nodes as u64,
        n.hidden_nodes as u64,
        n.output_nodes as u64,
        n.training_rate,
    ] + mat_words(n.wih@) + mat_words(n.who@)
}

/// When a word stream is a well-formed frame: a four-word header of positive,
/// machine-representable layer sizes, followed by exactly the number of
/// weight words those sizes dictate.
pub open spec fn header_ok(w: Seq<u64>) -> bool {
    &&& w.len() >= 4
    &&& 0 < w[0] && 0 < w[1] && 0 < w[2]
    &&& w[0] <= usize::MAX && w[1] <= usize::MAX && w[2] <= usize::MAX
    &&& w.len() == 4 + w[1] * w[0] + w[2] * w[1]
}

proof fn lemma_mat_words_push(m: Seq<Vec<u64>>, row: Vec<u64>)
    ensures
        mat_words(m.push(row)) == mat_words(m) + row@,
    decreases m.len(),
{
    let p = m.push(row);
    assert(p[0] == if m.len() == 0 { row } else { m[0] });
    if m.len() == 0 {
        assert(p.drop_first() =~= Seq::<Vec<u64>>::empty());
        assert(mat_words(p) == row@ + mat_words(Seq::<Vec<u64>>::empty()));
        assert(row@ + Seq::<u64>::empty() =~= Seq::<u64>::empty() + row@);
    } else {
        assert(p.drop_first() =~= m.drop_first().push(row));
        lemma_mat_words_push(m.drop_first(), row);
        assert(mat_words(p) == m[0]@ + (mat_words(m.drop_first()) + row@));
        assert(m[0]@ + (mat_words(m.drop_first()) + row@) =~= (m[0]@ + mat_words(
            m.drop_first(),
        )) + row@);
    }
}

proof fn lemma_mat_words_len(m: Seq<Vec<u64>>, rows: int, cols: int)
    requires
        matrix_wf(m, rows, cols),
    ensures
        mat_words(m).len() == rows * cols,
    decreases rows,
{
    if rows == 0 {
    } else {
        assert(matrix_wf(m.drop_first(), rows - 1, cols)) by {
            assert(forall|r: int|
                0 <= r < rows - 1 ==> #[trigger] m.drop_first()[r] == m[r + 1]);
        }
        lemma_mat_words_len(m.drop_first(), rows - 1, cols);
        assert(cols + (rows - 1) * cols == rows * cols) by (nonlinear_arith);
    }
}

/// Appends a matrix's words, row-major, onto `out`.
fn push_matrix(out: &mut Vec<u64>, m: &Vec<Vec<u64>>)
    ensures
        final(out)@ == old(out)@ + mat_words(m@),
{
    let rows: usize = m.len();
    let mut r: usize = 0;
    while r < rows
        invariant
            r <= rows,
            rows == m@.len(),
            out@ == old(out)@ + mat_words(m@.take(r as int)),
        decreases rows - r,
    {
        let row = &m[r];
        let cols: usize = row.len();
        let ghost base = out@;
        let mut c: usize = 0;
        while c < cols
            invariant
                c <= cols,
                cols == row@.len(),
                out@ == base + row@.take(c as int),
            decreases cols - c,
        {
            proof {
                assert(base + row@.take(c as int) + seq![row@[c as int]] =~= base + row@.take(
                    c as int + 1,
                ));
            }
            out.push(row[c]);
            c += 1;
        }
        proof {
            assert(row@.take(cols as int) =~= row@);
            assert(m@.take(r as int + 1) =~= m@.take(r as int).push(m@[r as int]));
            lemma_mat_words_push(m@.take(r as int), m@[r as int]);
            assert(base + row@ =~= old(out)@ + (mat_words(m@.take(r as int)) + row@));
        }
        r += 1;
    }
    proof {
        assert(m@.take(rows as int) =~= m@);
    }
}

/// Encodes a network's full state as one flat word stream: the four header
/// words, then `wih` row-major, then `who` row-major.
pub fn serialize(n: &NeuralNet<u64>) -> (out: Vec<u64>)
    requires
        n.wf(),
    ensures
        out@ == spec_encode(*n),
{
    let mut out: Vec<u64> = Vec::new();
    out.push(n.input_nodes as u64);
    out.push(n.hidden_nodes as u64);
    out.push(n.output_nodes as u64);
    out.push(n.training_rate);
    proof {
        assert(out@ =~= seq![
            n.input_nodes as u64,
            n.hidden_nodes as u64,
            n.output_nodes as u64,
            n.training_rate,
        ]);
    }
    push_matrix(&mut out, &n.wih);
    push_matrix(&mut out, &n.who);
    out
}

/// Reads a `rows x cols` matrix, row-major, from `words` starting at `start`;
/// `None` when the stream is too short.
fn parse_matrix(words: &Vec<u64>, rows: usize, cols: usize, start: usize) -> (r: Option<Vec<
    Vec<u64>,
>>)
    requires
        start <= words@.len(),
    ensures
        r is Some <==> start + rows * cols <= words@.len(),
        r matches Some(m) ==> matrix_wf(m@, rows as int, cols as int) && mat_words(m@)
            == words@.subrange(start as int, start + rows * cols),
{
    let len: usize = words.len();
    let mut m: Vec<Vec<u64>> = Vec::new();
    let mut idx: usize = start;
    let mut r: usize = 0;
    while r < rows
        invariant
            r <= rows,
            idx == start + r * cols,
            idx <= len,
            len == words@.len(),
            m@.len() == r,
            forall|rr: int| 0 <= rr < r ==> (#[trigger] m@[rr])@.len() == cols,
            mat_words(m@) == words@.subrange(start as int, idx as int),
        decreases rows - r,
    {
        let mut row: Vec<u64> = Vec::new();
        let ghost row_start = idx as int;
        let mut c: usize = 0;
        while c < cols
            invariant
                c <= cols,
                r < rows,
                idx == row_start + c,
                row_start == start + r * cols,
                idx <= len,
                len == words@.len(),
                row@.len() == c,
                row@ == words@.subrange(row_start, idx as int),
            decreases cols - c,
        {
            if idx == len {
                proof {
                    assert(r * cols + c < rows * cols) by (nonlinear_arith)
                        requires
                            r < rows,
                            c < cols,
                            0 <= r,
                            0 <= c,
                    ;
                }
                return None;
            }
            proof {
                assert(words@.subrange(row_start, idx as int) + seq![words@[idx as int]]
                    =~= words@.subrange(row_start, idx as int + 1));
            }
            row.push(words[idx]);
            idx += 1;
            c += 1;
        }
        proof {
            lemma_mat_words_push(m@, row);
            assert(words@.subrange(start as int, row_start) + words@.subrange(row_start, idx as int)
                =~= words@.subrange(start as int, idx as int));
            assert((r + 1) * cols == r * cols + cols) by (nonlinear_arith);
        }
        m.push(row);
        r += 1;
    }
    Some(m)
}

/// Decodes a word stream produced by [`serialize`]. Fails explicitly, with no
/// partial result, on any stream whose header is short, whose layer sizes are
/// zero or unrepresentable, or whose weight-word count is inconsistent with
/// the declared sizes.
pub fn deserialize(words: &Vec<u64>) -> (r: Result<NeuralNet<u64>, NetError>)
    ensures
        r is Ok <==> header_ok(words@),
        r matches Ok(n) ==> n.wf() && spec_encode(n) == words@,
        r is Err ==> (r matches Err(NetError::Encoding)),
{
    let len: usize = words.len();
    if len < 4 {
        return Err(NetError::Encoding);
    }
    let w0 = words[0];
    let w1 = words[1];
    let w2 = words[2];
    if w0 == 0 || w1 == 0 || w2 == 0 {
        return Err(NetError::Encoding);
    }
    if w0 > usize::MAX as u64 || w1 > usize::MAX as u64 || w2 > usize::MAX as u64 {
        return Err(NetError::Encoding);
    }
    let input_nodes = w0 as usize;
    let hidden_nodes = w1 as usize;
    let output_nodes = w2 as usize;
    let wih = match parse_matrix(words, hidden_nodes, input_nodes, 4) {
        Some(m) => m,
        None => {
            proof {
                assert(0 <= output_nodes * hidden_nodes) by (nonlinear_arith);
            }
            return Err(NetError::Encoding);
        },
    };
    let split: usize = hidden_nodes * input_nodes;
    let next: usize = 4 + split;
    let who = match parse_matrix(words, output_nodes, hidden_nodes, next) {
        Some(m) => m,
        None => {
            return Err(NetError::Encoding);
        },
    };
    let total: usize = next + output_nodes * hidden_nodes;
    if total != len {
        return Err(NetError::Encoding);
    }
    let n = NeuralNet {
        input_nodes,
        hidden_nodes,
        output_nodes,
        training_rate: words[3],
        wih,
        who,
    };
    proof {
        assert(spec_encode(n) =~= words@);
    }
    Ok(n)
}

/// Encodes every entry of a matrix by `to_bits`, preserving its shape.
fn mat_to_bits<S: Scalar>(m: &Vec<Vec<S>>, rows: usize, cols: usize) -> (r: Vec<Vec<u64>>)
    requires
        matrix_wf(m@, rows as int, cols as int),
    ensures
        matrix_wf(r@, rows as int, cols as int),
        forall|i: int, j: int|
            0 <= i < rows && 0 <= j < cols ==> #[trigger] r@[i]@[j] == m@[i]@[j].spec_to_bits(),
{
    let mut out: Vec<Vec<u64>> = Vec::new();
    let mut i: usize = 0;
    while i < rows
        invariant
            i <= rows,
            matrix_wf(m@, rows as int, cols as int),
            out@.len() == i,
            forall|rr: int| 0 <= rr < i ==> (#[trigger] out@[rr])@.len() == cols,
            forall|rr: int, jj: int|
                0 <= rr < i && 0 <= jj < cols ==> #[trigger] out@[rr]@[jj] == m@[rr]@[jj]
                    .spec_to_bits(),
        decreases rows - i,
    {
        let row = &m[i];
        let mut new_row: Vec<u64> = Vec::new();
        let mut j: usize = 0;
        while j < cols
            invariant
                j <= cols,
                row@.len() == cols,
                new_row@.len() == j,
                forall|jj: int|
                    0 <= jj < j ==> #[trigger] new_row@[jj] == row@[jj].spec_to_bits(),
            decreases cols - j,
        {
            new_row.push(row[j].to_bits());
            j += 1;
        }
        out.push(new_row);
        i += 1;
    }
    out
}

/// Rebuilds every entry of a matrix by `from_bits`, preserving its shape.
fn mat_from_bits<S: Scalar>(m: &Vec<Vec<u64>>, rows: usize, cols: usize) -> (r: Vec<Vec<S>>)
    requires
        matrix_wf(m@, rows as int, cols as int),
    ensures
        matrix_wf(r@, rows as int, cols as int),
        forall|i: int, j: int|
            0 <= i < rows && 0 <= j < cols ==> #[trigger] r@[i]@[j] == S::spec_from_bits(
                m@[i]@[j],
            ),
{
    let mut out: Vec<Vec<S>> = Vec::new();
    let mut i: usize = 0;
    while i < rows
        invariant
            i <= rows,
            matrix_wf(m@, rows as int, cols as int),
            out@.len() == i,
            forall|rr: int| 0 <= rr < i ==> (#[trigger] out@[rr])@.len() == cols,
            forall|rr: int, jj: int|
                0 <= rr < i && 0 <= jj < cols ==> #[trigger] out@[rr]@[jj] == S::spec_from_bits(
                    m@[rr]@[jj],
                ),
        decreases rows - i,
    {
        let row = &m[i];
        let mut new_row: Vec<S> = Vec::new();
        let mut j: usize = 0;
        while j < cols
            invariant
                j <= cols,
                row@.len() == cols,
                new_row@.len() == j,
                forall|jj: int|
                    0 <= jj < j ==> #[trigger] new_row@[jj] == S::spec_from_bits(row@[jj]),
            decreases cols - j,
        {
            new_row.push(S::from_bits(row[j]));
            j += 1;
        }
        out.push(new_row);
        i += 1;
    }
    out
}

/// The persistable state of a network: the same layer sizes, with the
/// training rate and every weight replaced by its `to_bits` encoding.
pub fn net_to_bits<S: Scalar>(n: &NeuralNet<S>) -> (r: NeuralNet<u64>)
    requires
        n.wf(),
    ensures
        r.wf(),
        r.input_nodes == n.input_nodes,
        r.hidden_nodes == n.hidden_nodes,
        r.output_nodes == n.output_nodes,
        r.training_rate == n.training_rate.spec_to_bits(),
        forall|i: int, j: int|
            0 <= i < n.hidden_nodes && 0 <= j < n.input_nodes ==> #[trigger] r.wih@[i]@[j]
                == n.wih@[i]@[j].spec_to_bits(),
        forall|i: int, j: int|
            0 <= i < n.output_nodes && 0 <= j < n.hidden_nodes ==> #[trigger] r.who@[i]@[j]
                == n.who@[i]@[j].spec_to_bits(),
{
    NeuralNet {
        input_nodes: n.input_nodes,
        hidden_nodes: n.hidden_nodes,
        output_nodes: n.output_nodes,
        training_rate: n.training_rate.to_bits(),
        wih: mat_to_bits(&n.wih, n.hidden_nodes, n.input_nodes),
        who: mat_to_bits(&n.who, n.output_nodes, n.hidden_nodes),
    }
}

/// Rebuilds a scalar network from its persistable state, by `from_bits` on
/// the training rate and every weight.
pub fn net_from_bits<S: Scalar>(n: &NeuralNet<u64>) -> (r: NeuralNet<S>)
    requires
        n.wf(),
    ensures
        r.wf(),
        r.input_nodes == n.input_nodes,
        r.hidden_nodes == n.hidden_nodes,
        r.output_nodes == n.output_nodes,
        r.training_rate == S::spec_from_bits(n.training_rate),
        forall|i: int, j: int|
            0 <= i < n.hidden_nodes && 0 <= j < n.input_nodes ==> #[trigger] r.wih@[i]@[j]
                == S::spec_from_bits(n.wih@[i]@[j]),
        forall|i: int, j: int|
            0 <= i < n.output_nodes && 0 <= j < n.hidden_nodes ==> #[trigger] r.who@[i]@[j]
                == S::spec_from_bits(n.who@[i]@[j]),
{
    NeuralNet {
        input_nodes: n.input_nodes,
        hidden_nodes: n.hidden_nodes,
        output_nodes: n.output_nodes,
        training_rate: S::from_bits(n.training_rate),
        wih: mat_from_bits(&n.wih, n.hidden_nodes, n.input_nodes),
        who: mat_from_bits(&n.who, n.output_nodes, n.hidden_nodes),
    }
}

/// Law: the persistence pipeline loses nothing. Given `bits` holding a
/// network's encoded state, as [`net_to_bits`] ensures of its result, and
/// `restored` rebuilt from `bits`, as [`net_from_bits`] ensures of its
/// result, `restored` holds exactly the original's training rate and weight
/// matrices, and answers every query as the original does. Together with
/// [`lemma_encode_header_ok`] and [`lemma_encode_injective`], the same holds
/// across [`serialize`] and [`deserialize`] of the bit-level state.
pub proof fn lemma_persist_round_trip<S: Scalar>(
    n: NeuralNet<S>,
    bits: NeuralNet<u64>,
    restored: NeuralNet<S>,
    values: Seq<S>,
)
    requires
        n.wf(),
        bits.wf(),
        restored.wf(),
        bits.input_nodes == n.input_nodes,
        bits.hidden_nodes == n.hidden_nodes,
        bits.output_nodes == n.output_nodes,
        bits.training_rate == n.training_rate.spec_to_bits(),
        forall|i: int, j: int|
            0 <= i < n.hidden_nodes && 0 <= j < n.input_nodes ==> #[trigger] bits.wih@[i]@[j]
                == n.wih@[i]@[j].spec_to_bits(),
        forall|i: int, j: int|
            0 <= i < n.output_nodes && 0 <= j < n.hidden_nodes ==> #[trigger] bits.who@[i]@[j]
                == n.who@[i]@[j].spec_to_bits(),
        restored.input_nodes == bits.input_nodes,
        restored.hidden_nodes == bits.hidden_nodes,
        restored.output_nodes == bits.output_nodes,
        restored.training_rate == S::spec_from_bits(bits.training_rate),
        forall|i: int, j: int|
            0 <= i < bits.hidden_nodes && 0 <= j < bits.input_nodes ==> #[trigger] restored.wih@[i]@[j]
                == S::spec_from_bits(bits.wih@[i]@[j]),
        forall|i: int, j: int|
            0 <= i < bits.output_nodes && 0 <= j < bits.hidden_nodes ==> #[trigger] restored.who@[i]@[j]
                == S::spec_from_bits(bits.who@[i]@[j]),
    ensures
        restored.training_rate == n.training_rate,
        mat_view(restored.wih@) == mat_view(n.wih@),
        mat_view(restored.who@) == mat_view(n.who@),
        restored.spec_query(values) == n.spec_query(values),
{
    S::lemma_bits_round_trip(n.training_rate);
    assert forall|i: int| 0 <= i < n.hidden_nodes implies #[trigger] mat_view(restored.wih@)[i]
        == mat_view(n.wih@)[i] by {
        assert forall|j: int| 0 <= j < n.input_nodes implies #[trigger] restored.wih@[i]@[j]
            == n.wih@[i]@[j] by {
            S::lemma_bits_round_trip(n.wih@[i]@[j]);
        }
        assert(restored.wih@[i]@ =~= n.wih@[i]@);
    }
    assert(mat_view(restored.wih@) =~= mat_view(n.wih@));
    assert forall|i: int| 0 <= i < n.output_nodes implies #[trigger] mat_view(restored.who@)[i]
        == mat_view(n.who@)[i] by {
        assert forall|j: int| 0 <= j < n.hidden_nodes implies #[trigger] restored.who@[i]@[j]
            == n.who@[i]@[j] by {
            S::lemma_bits_round_trip(n.who@[i]@[j]);
        }
        assert(restored.who@[i]@ =~= n.who@[i]@);
    }
    assert(mat_view(restored.who@) =~= mat_view(n.who@));
}

proof fn lemma_mat_words_index(m: Seq<Vec<u64>>, rows: int, cols: int, r: int, c: int)
    requires
        matrix_wf(m, rows, cols),
        0 <= r < rows,
        0 <= c < cols,
    ensures
        0 <= r * cols + c < rows * cols,
        mat_words(m)[r * cols + c] == m[r]@[c],
    decreases r,
{
    lemma_mat_words_len(m, rows, cols);
    assert(0 <= r * cols + c < rows * cols) by (nonlinear_arith)
        requires
            0 <= r < rows,
            0 <= c < cols,
    ;
    if r == 0 {
        assert(mat_words(m)[c] == m[0]@[c]);
        assert(r * cols + c == c) by (nonlinear_arith)
            requires
                r == 0,
        ;
    } else {
        assert(matrix_wf(m.drop_first(), rows - 1, cols)) by {
            assert(forall|rr: int|
                0 <= rr < rows - 1 ==> #[trigger] m.drop_first()[rr] == m[rr + 1]);
        }
        lemma_mat_words_index(m.drop_first(), rows - 1, cols, r - 1, c);
        assert((r - 1) * cols + c == r * cols + c - cols) by (nonlinear_arith);
        assert(cols <= r * cols) by (nonlinear_arith)
            requires
                1 <= r,
                0 <= cols,
        ;
        assert(m.drop_first()[r - 1] == m[r]);
        assert(mat_words(m) == m[0]@ + mat_words(m.drop_first()));
        assert(mat_words(m)[r * cols + c] == mat_words(m.drop_first())[r * cols + c - cols]);
        assert(mat_words(m.drop_first())[(r - 1) * cols + c] == m[r]@[c]);
        assert(mat_words(m)[r * cols + c] == m[r]@[c]);
    }
}

/// Law: a well-formed network's encoding is itself well formed, so decoding
/// what was encoded always succeeds.
pub proof fn lemma_encode_header_ok(n: NeuralNet<u64>)
    requires
        n.wf(),
    ensures
        header_ok(spec_encode(n)),
{
    lemma_mat_words_len(n.wih@, n.hidden_nodes as int, n.input_nodes as int);
    lemma_mat_words_len(n.who@, n.output_nodes as int, n.hidden_nodes as int);
}

/// Law: the encoding loses nothing — two well-formed networks with the same
/// encoding agree on every layer size, the training rate, and every entry of
/// both weight matrices. Together with [`lemma_encode_header_ok`] and the
/// contracts of [`serialize`] and [`deserialize`], a serialized network
/// always deserializes back to exactly its own state.
pub proof fn lemma_encode_injective(a: NeuralNet<u64>, b: NeuralNet<u64>)
    requires
        a.wf(),
        b.wf(),
        spec_encode(a) == spec_encode(b),
    ensures
        a.input_nodes == b.input_nodes,
        a.hidden_nodes == b.hidden_nodes,
        a.output_nodes == b.output_nodes,
        a.training_rate == b.training_rate,
        mat_seq(a.wih@) == mat_seq(b.wih@),
        mat_seq(a.who@) == mat_seq(b.who@),
{
    lemma_mat_words_len(a.wih@, a.hidden_nodes as int, a.input_nodes as int);
    lemma_mat_words_len(a.who@, a.output_nodes as int, a.hidden_nodes as int);
    lemma_mat_words_len(b.wih@, b.hidden_nodes as int, b.input_nodes as int);
    lemma_mat_words_len(b.who@, b.output_nodes as int, b.hidden_nodes as int);
    assert(spec_encode(a)[0] == a.input_nodes as u64);
    assert(spec_encode(b)[0] == b.input_nodes as u64);
    assert(spec_encode(a)[1] == a.hidden_nodes as u64);
    assert(spec_encode(a)[2] == a.output_nodes as u64);
    assert(spec_encode(a)[3] == a.training_rate);
    let i = a.input_nodes as int;
    let h = a.hidden_nodes as int;
    let o = a.output_nodes as int;
    assert(mat_words(a.wih@) =~= spec_encode(a).subrange(4, 4 + h * i));
    assert(mat_words(b.wih@) =~= spec_encode(b).subrange(4, 4 + h * i));
    assert(mat_words(a.who@) =~= spec_encode(a).subrange(4 + h * i, 4 + h * i + o * h));
    assert(mat_words(b.who@) =~= spec_encode(b).subrange(4 + h * i, 4 + h * i + o * h));
    lemma_mat_eq(a.wih@, b.wih@, h, i);
    lemma_mat_eq(a.who@, b.who@, o, h);
}

proof fn lemma_mat_eq(x: Seq<Vec<u64>>, y: Seq<Vec<u64>>, rows: int, cols: int)
    requires
        matrix_wf(x, rows, cols),
        matrix_wf(y, rows, cols),
        mat_words(x) == mat_words(y),
    ensures
        mat_seq(x) == mat_seq(y),
{
    assert forall|r: int, c: int| 0 <= r < rows && 0 <= c < cols implies #[trigger] x[r]@[c]
        == y[r]@[c] by {
        lemma_mat_words_index(x, rows, cols, r, c);
        lemma_mat_words_index(y, rows, cols, r, c);
    }
    assert forall|r: int| 0 <= r < rows implies #[trigger] mat_seq(x)[r] == mat_seq(y)[r] by {
        assert(x[r]@ =~= y[r]@);
    }
    assert(mat_seq(x) =~= mat_seq(y));
}

} // verus!
