use vstd::prelude::*;

verus! {

/// Number of elements of a tensor of the given shape.
pub open spec fn element_count(shape: Seq<usize>) -> nat
    decreases shape.len(),
{
    if shape.len() == 0 {
        1
    } else {
        element_count(shape.drop_last()) * (shape.last() as nat)
    }
}

/// Element types with a zero and a one.
pub trait TensorElement: Copy + Sized {
    spec fn spec_zero() -> Self;

    spec fn spec_one() -> Self;

    fn zero() -> (r: Self)
        ensures
            r == Self::spec_zero(),
    ;

    fn one() -> (r: Self)
        ensures
            r == Self::spec_one(),
    ;
}

impl TensorElement for i32 {
    open spec fn spec_zero() -> i32 {
        0
    }

    open spec fn spec_one() -> i32 {
        1
    }

    fn zero() -> (r: i32) {
        0
    }

    fn one() -> (r: i32) {
        1
    }
}

impl TensorElement for i64 {
    open spec fn spec_zero() -> i64 {
        0
    }

    open spec fn spec_one() -> i64 {
        1
    }

    fn zero() -> (r: i64) {
        0
    }

    fn one() -> (r: i64) {
        1
    }
}

impl TensorElement for u8 {
    open spec fn spec_zero() -> u8 {
        0
    }

    open spec fn spec_one() -> u8 {
        1
    }

    fn zero() -> (r: u8) {
        0
    }

    fn one() -> (r: u8) {
        1
    }
}

impl TensorElement for bool {
    open spec fn spec_zero() -> bool {
        false
    }

    open spec fn spec_one() -> bool {
        true
    }

    fn zero() -> (r: bool) {
        false
    }

    fn one() -> (r: bool) {
        true
    }
}

/// A dense tensor in row-major order: its shape and its elements.
#[derive(Debug)]
pub struct TensorData<T> {
    pub shape: Vec<usize>,
    pub data: Vec<T>,
}

impl<T> TensorData<T> {
    /// The element count matches the shape.
    pub open spec fn wf(&self) -> bool {
        self.data@.len() == element_count(self.shape@)
    }
}

/// Rejection of a tensor operation.
#[derive(PartialEq, Eq, Structural, Clone, Copy, Debug)]
pub enum TensorError {
    /// The new shape holds another number of elements than the tensor.
    ShapeMismatch,
}

/// The element count of `shape`, which fits in `usize`.
pub fn shape_element_count(shape: &[usize]) -> (r: usize)
    requires
        element_count(shape@) <= usize::MAX,
    ensures
        r == element_count(shape@),
{
    let mut acc: usize = 1;
    let mut i: usize = 0;
    proof {
        assert(shape@.subrange(0, 0) =~= Seq::<usize>::empty());
    }
    while i < shape.len()
        invariant
            i <= shape@.len(),
            element_count(shape@) <= usize::MAX,
            acc == element_count(shape@.subrange(0, i as int)),
        decreases shape@.len() - i,
    {
        proof {
            lemma_count_prefix_bounded(shape@, i as int + 1);
            assert(shape@.subrange(0, i as int + 1).drop_last() =~= shape@.subrange(0, i as int));
        }
        match acc.checked_mul(shape[i]) {
            Some(v) => {
                acc = v;
            },
            None => {
                return 0;
            },
        }
        i = i + 1;
    }
    proof {
        assert(shape@.subrange(0, shape@.len() as int) =~= shape@);
    }
    acc
}

/// A prefix of a shape holds no more elements than the shape, unless the shape is empty
/// of elements.
proof fn lemma_count_prefix_bounded(shape: Seq<usize>, n: int)
    requires
        0 <= n <= shape.len(),
    ensures
        element_count(shape) == 0 || element_count(shape.subrange(0, n)) <= element_count(shape),
    decreases shape.len() - n,
{
    if n < shape.len() {
        lemma_count_prefix_bounded(shape, n + 1);
        let p = shape.subrange(0, n + 1);
        assert(p.drop_last() =~= shape.subrange(0, n));
        let a = element_count(shape.subrange(0, n));
        let b = shape[n] as nat;
        assert(element_count(p) == a * b);
        if element_count(shape) != 0 {
            if b == 0 {
                assert(a * b == 0) by (nonlinear_arith)
                    requires
                        b == 0,
                ;
                lemma_zero_prefix(shape, n + 1);
            } else {
                assert(a <= a * b) by (nonlinear_arith)
                    requires
                        b >= 1,
                ;
            }
        }
    } else {
        assert(shape.subrange(0, n) =~= shape);
    }
}

/// A shape whose prefix holds no element holds no element.
proof fn lemma_zero_prefix(shape: Seq<usize>, n: int)
    requires
        0 <= n <= shape.len(),
        element_count(shape.subrange(0, n)) == 0,
    ensures
        element_count(shape) == 0,
    decreases shape.len() - n,
{
    if n < shape.len() {
        let p = shape.subrange(0, n + 1);
        assert(p.drop_last() =~= shape.subrange(0, n));
        assert(element_count(p) == 0 * shape[n]);
        lemma_zero_prefix(shape, n + 1);
    } else {
        assert(shape.subrange(0, n) =~= shape);
    }
}

/// `n` copies of `value`.
fn repeat<T: Copy>(value: T, n: usize) -> (r: Vec<T>)
    ensures
        r@ == Seq::new(n as nat, |_i: int| value),
{
    let mut r: Vec<T> = Vec::with_capacity(n);
    let mut i: usize = 0;
    while i < n
        invariant
            i <= n,
            r@ == Seq::new(i as nat, |_i: int| value),
        decreases n - i,
    {
        r.push(value);
        i = i + 1;
        assert(r@ =~= Seq::new(i as nat, |_i: int| value));
    }
    r
}

/// A copy of a shape.
fn copy_shape(shape: &[usize]) -> (r: Vec<usize>)
    ensures
        r@ == shape@,
{
    let mut r: Vec<usize> = Vec::with_capacity(shape.len());
    let mut i: usize = 0;
    while i < shape.len()
        invariant
            i <= shape@.len(),
            r@ == shape@.subrange(0, i as int),
        decreases shape@.len() - i,
    {
        r.push(shape[i]);
        i = i + 1;
        assert(r@ =~= shape@.subrange(0, i as int));
    }
    assert(r@ =~= shape@);
    r
}

/// A tensor of the given shape with every element `value`.
pub fn full_tensor<T: Copy>(shape: &[usize], value: T) -> (r: TensorData<T>)
    requires
        element_count(shape@) <= usize::MAX,
    ensures
        r.wf(),
        r.shape@ == shape@,
        r.data@ == Seq::new(element_count(shape@), |_i: int| value),
{
    let total = shape_element_count(shape);
    TensorData { shape: copy_shape(shape), data: repeat(value, total) }
}

/// A tensor of the given shape filled with zeros.
pub fn zeros_tensor<T: TensorElement>(shape: &[usize]) -> (r: TensorData<T>)
    requires
        element_count(shape@) <= usize::MAX,
    ensures
        r.wf(),
        r.shape@ == shape@,
        r.data@ == Seq::new(element_count(shape@), |_i: int| T::spec_zero()),
{
    full_tensor(shape, T::zero())
}

/// A tensor of the given shape filled with ones.
pub fn ones_tensor<T: TensorElement>(shape: &[usize]) -> (r: TensorData<T>)
    requires
        element_count(shape@) <= usize::MAX,
    ensures
        r.wf(),
        r.shape@ == shape@,
        r.data@ == Seq::new(element_count(shape@), |_i: int| T::spec_one()),
{
    full_tensor(shape, T::one())
}

/// The `size` by `size` identity matrix.
pub fn identity_tensor<T: TensorElement>(size: usize) -> (r: TensorData<T>)
    requires
        size * size <= usize::MAX,
    ensures
        r.wf(),
        r.shape@ == seq![size, size],
        r.data@.len() == size * size,
        forall|i: int, j: int|
            0 <= i < size && 0 <= j < size ==> #[trigger] r.data@[i * size + j] == if i == j {
                T::spec_one()
            } else {
                T::spec_zero()
            },
{
    let n = size * size;
    let mut data: Vec<T> = Vec::with_capacity(n);
    let mut k: usize = 0;
    while k < n
        invariant
            n == size * size,
            k <= n,
            data@.len() == k,
            forall|m: int|
                0 <= m < k ==> #[trigger] data@[m] == if m % (size as int) == m / (size as int) {
                    T::spec_one()
                } else {
                    T::spec_zero()
                },
        decreases n - k,
    {
        if k % size == k / size {
            data.push(T::one());
        } else {
            data.push(T::zero());
        }
        k = k + 1;
    }
    let mut shape: Vec<usize> = Vec::new();
    shape.push(size);
    shape.push(size);
    proof {
        assert(shape@ =~= seq![size, size]);
        assert(shape@.drop_last() =~= seq![size]);
        assert(seq![size].drop_last() =~= Seq::<usize>::empty());
        assert(element_count(Seq::<usize>::empty()) == 1);
        assert(element_count(seq![size]) == 1 * size);
        assert(element_count(shape@) == size * size);
        assert forall|i: int, j: int| 0 <= i < size && 0 <= j < size implies #[trigger] data@[i
            * size + j] == if i == j {
            T::spec_one()
        } else {
            T::spec_zero()
        } by {
            let m = i * size + j;
            assert(0 <= m < size * size) by (nonlinear_arith)
                requires
                    0 <= i < size,
                    0 <= j < size,
                    m == i * size + j,
            ;
            assert(m % (size as int) == j && m / (size as int) == i) by (nonlinear_arith)
                requires
                    0 <= i < size,
                    0 <= j < size,
                    m == i * size + j,
            ;
        }
    }
    TensorData { shape, data }
}

/// The tensor followed by as many zeros along its first dimension, which doubles.
pub fn dupe_zeros_along_first_dim<T: TensorElement>(tensor: TensorData<T>) -> (r: TensorData<T>)
    requires
        tensor.wf(),
        tensor.shape@.len() > 0,
        tensor.shape@[0] * 2 <= usize::MAX,
        tensor.data@.len() * 2 <= usize::MAX,
    ensures
        r.shape@ == tensor.shape@.update(0, (tensor.shape@[0] * 2) as usize),
        r.data@ == tensor.data@ + Seq::new(tensor.data@.len(), |_i: int| T::spec_zero()),
{
    let TensorData { shape, data } = tensor;
    let mut shape = shape;
    let first = shape[0];
    shape.set(0, first * 2);
    let n = data.len();
    let mut data = data;
    let mut k: usize = 0;
    while k < n
        invariant
            k <= n,
            data@.len() == n + k,
            data@ == tensor.data@ + Seq::new(k as nat, |_i: int| T::spec_zero()),
            n == tensor.data@.len(),
        decreases n - k,
    {
        data.push(T::zero());
        k = k + 1;
        assert(data@ =~= tensor.data@ + Seq::new(k as nat, |_i: int| T::spec_zero()));
    }
    TensorData { shape, data }
}

/// The same elements under `new_shape`, which must hold as many.
pub fn reshape_tensor<T>(tensor: TensorData<T>, new_shape: &[usize]) -> (r: Result<
    TensorData<T>,
    TensorError,
>)
    requires
        element_count(new_shape@) <= usize::MAX,
    ensures
        r is Err <==> element_count(new_shape@) != tensor.data@.len(),
        r is Err ==> r == Err::<TensorData<T>, TensorError>(TensorError::ShapeMismatch),
        r is Ok ==> r->Ok_0.shape@ == new_shape@ && r->Ok_0.data@ == tensor.data@ && r->Ok_0.wf(),
{
    let total = shape_element_count(new_shape);
    if total != tensor.data.len() {
        return Err(TensorError::ShapeMismatch);
    }
    Ok(TensorData { shape: copy_shape(new_shape), data: tensor.data })
}

} // verus!
