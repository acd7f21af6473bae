//! What can index the fields of a type or the elements of an array.
use vstd::prelude::*;

use crate::error::JlrsError;
use crate::value::Symbol;

verus! {

/// The product of a sequence of sizes.
pub open spec fn product(dims: Seq<usize>) -> int
    decreases dims.len(),
{
    if dims.len() == 0 {
        1
    } else {
        dims[0] * product(dims.drop_first())
    }
}

/// The column-major position of `idx` in an array of sizes `dims`.
pub open spec fn linear_index(dims: Seq<usize>, idx: Seq<usize>) -> int
    decreases dims.len(),
{
    if dims.len() == 0 {
        0
    } else {
        idx[0] + dims[0] * linear_index(dims.drop_first(), idx.drop_first())
    }
}

/// `idx` has one entry per dimension, each below that dimension's size.
pub open spec fn in_bounds(dims: Seq<usize>, idx: Seq<usize>) -> bool {
    &&& idx.len() == dims.len()
    &&& forall|i: int| 0 <= i < dims.len() ==> #[trigger] idx[i] < dims[i]
}

/// The sizes of the dimensions of an array, whose number of elements fits in a `usize`.
pub struct Dimensions {
    dims: Vec<usize>,
}

proof fn lemma_product_suffix(dims: Seq<usize>, i: int)
    requires
        0 <= i <= dims.len(),
        forall|k: int| 0 <= k < dims.len() ==> #[trigger] dims[k] >= 1,
    ensures
        1 <= product(dims.skip(i)) <= product(dims),
    decreases i,
{
    assert forall|k: int| 0 <= k < dims.skip(i).len() implies #[trigger] dims.skip(i)[k] >= 1 by {
        assert(dims.skip(i)[k] == dims[k + i]);
    }
    lemma_product_positive(dims.skip(i));
    if i > 0 {
        lemma_product_suffix(dims, i - 1);
        assert(dims.skip(i - 1).drop_first() =~= dims.skip(i));
        let p = product(dims.skip(i));
        let d = dims[i - 1] as int;
        assert(product(dims.skip(i - 1)) == d * p);
        assert(p <= d * p) by (nonlinear_arith)
            requires
                d >= 1,
                p >= 1,
        ;
    } else {
        assert(dims.skip(0) =~= dims);
    }
}

proof fn lemma_product_nonneg(dims: Seq<usize>)
    ensures
        product(dims) >= 0,
    decreases dims.len(),
{
    if dims.len() > 0 {
        lemma_product_nonneg(dims.drop_first());
        let p = product(dims.drop_first());
        let d = dims[0] as int;
        assert(d * p >= 0) by (nonlinear_arith)
            requires
                d >= 0,
                p >= 0,
        ;
    }
}

proof fn lemma_product_positive(dims: Seq<usize>)
    requires
        forall|k: int| 0 <= k < dims.len() ==> #[trigger] dims[k] >= 1,
    ensures
        product(dims) >= 1,
    decreases dims.len(),
{
    if dims.len() > 0 {
        assert forall|k: int| 0 <= k < dims.drop_first().len() implies #[trigger] dims.drop_first()[k] >= 1 by {
            assert(dims.drop_first()[k] == dims[k + 1]);
        }
        lemma_product_positive(dims.drop_first());
        let p = product(dims.drop_first());
        let d = dims[0] as int;
        assert(d * p >= 1) by (nonlinear_arith)
            requires
                d >= 1,
                p >= 1,
        ;
    }
}

impl Dimensions {
    pub closed spec fn view(&self) -> Seq<usize> {
        self.dims@
    }

    pub closed spec fn wf(&self) -> bool {
        product(self.dims@) <= usize::MAX
    }

    /// The dimensions of sizes `dims`, unless their product does not fit in a `usize`.
    pub fn new(dims: Vec<usize>) -> (r: Option<Self>)
        ensures
            r is Some <==> product(dims@) <= usize::MAX,
            r matches Some(d) ==> d.view() == dims@ && d.wf(),
    {
        let n = dims.len();
        let mut k: usize = 0;
        while k < n
            invariant
                k <= n,
                n == dims@.len(),
                forall|j: int| 0 <= j < k ==> #[trigger] dims@[j] >= 1,
            decreases n - k,
        {
            if dims[k] == 0 {
                proof {
                    lemma_product_zero(dims@, k as int);
                }
                return Some(Dimensions { dims });
            }
            k = k + 1;
        }
        let mut acc: usize = 1;
        let mut i: usize = n;
        proof {
            assert(dims@.skip(n as int) =~= Seq::<usize>::empty());
        }
        while i > 0
            invariant
                i <= n,
                n == dims@.len(),
                forall|j: int| 0 <= j < n ==> #[trigger] dims@[j] >= 1,
                acc == product(dims@.skip(i as int)),
            decreases i,
        {
            i = i - 1;
            let d = dims[i];
            proof {
                assert(dims@.skip(i as int).drop_first() =~= dims@.skip(i + 1));
                assert(product(dims@.skip(i as int)) == d * product(dims@.skip(i + 1)));
            }
            match acc.checked_mul(d) {
                Some(m) => {
                    acc = m;
                },
                None => {
                    proof {
                        lemma_product_suffix(dims@, i as int);
                        assert(acc * d > usize::MAX);
                        assert(d * acc == acc * d) by (nonlinear_arith);
                    }
                    return None;
                },
            }
        }
        proof {
            assert(dims@.skip(0) =~= dims@);
        }
        Some(Dimensions { dims })
    }

    /// The number of dimensions.
    pub fn n_dimensions(&self) -> (r: usize)
        ensures
            r == self.view().len(),
    {
        self.dims.len()
    }

    /// The column-major position of `index`: an error when `index` has another number of
    /// dimensions, or when an entry is not below its dimension's size.
    pub fn index_of(&self, index: &[usize]) -> (r: Result<usize, JlrsError>)
        requires
            self.wf(),
        ensures
            index@.len() != self.view().len() ==> r == Err::<usize, JlrsError>(
                JlrsError::IllegalNumberOfDimensions { expected: self.view().len() as usize, found: index@.len() as usize },
            ),
            index@.len() == self.view().len() && !in_bounds(self.view(), index@) ==> r == Err::<usize, JlrsError>(
                JlrsError::InvalidIndex,
            ),
            in_bounds(self.view(), index@) ==> r == Ok::<usize, JlrsError>(
                linear_index(self.view(), index@) as usize,
            ),
    {
        let n = self.dims.len();
        if index.len() != n {
            return Err(JlrsError::IllegalNumberOfDimensions { expected: n, found: index.len() });
        }
        let mut k: usize = 0;
        while k < n
            invariant
                k <= n,
                n == self.dims@.len(),
                n == index@.len(),
                forall|j: int| 0 <= j < k ==> #[trigger] index@[j] < self.dims@[j],
            decreases n - k,
        {
            if index[k] >= self.dims[k] {
                return Err(JlrsError::InvalidIndex);
            }
            k = k + 1;
        }
        let ghost dims = self.dims@;
        let ghost idx = index@;
        proof {
            assert forall|j: int| 0 <= j < n implies #[trigger] dims[j] >= 1 by {
                assert(idx[j] < dims[j]);
            }
            assert(dims.skip(n as int) =~= Seq::<usize>::empty());
            assert(idx.skip(n as int) =~= Seq::<usize>::empty());
        }
        let mut acc: usize = 0;
        let mut i: usize = n;
        while i > 0
            invariant
                i <= n,
                n == dims.len(),
                n == idx.len(),
                dims == self.dims@,
                idx == index@,
                in_bounds(dims, idx),
                forall|j: int| 0 <= j < n ==> #[trigger] dims[j] >= 1,
                product(dims) <= usize::MAX,
                acc == linear_index(dims.skip(i as int), idx.skip(i as int)),
                acc < product(dims.skip(i as int)),
            decreases i,
        {
            i = i - 1;
            let d = self.dims[i];
            let x = index[i];
            proof {
                assert(dims.skip(i as int).drop_first() =~= dims.skip(i + 1));
                assert(idx.skip(i as int).drop_first() =~= idx.skip(i + 1));
                lemma_product_suffix(dims, i as int);
                let p = product(dims.skip(i + 1));
                assert(x < d);
                assert(acc * d + x < d * p) by (nonlinear_arith)
                    requires
                        acc < p,
                        x < d,
                ;
            }
            proof {
                assert(d * acc == acc * d) by (nonlinear_arith);
                assert(linear_index(dims.skip(i as int), idx.skip(i as int)) == x + d * acc);
            }
            acc = acc * d + x;
        }
        proof {
            assert(dims.skip(0) =~= dims);
            assert(idx.skip(0) =~= idx);
        }
        Ok(acc)
    }
}

proof fn lemma_product_zero(dims: Seq<usize>, k: int)
    requires
        0 <= k < dims.len(),
        dims[k] == 0,
    ensures
        product(dims) == 0,
    decreases dims.len(),
{
    if k > 0 {
        assert(dims.drop_first()[k - 1] == dims[k]);
        lemma_product_zero(dims.drop_first(), k - 1);
    }
}

/// A type, as far as indexing its fields goes: the names of its fields, in order.
pub struct DataType {
    field_names: Vec<Symbol>,
}

/// The two byte strings are equal.
fn bytes_eq(a: &[u8], b: &[u8]) -> (r: bool)
    ensures
        r == (a@ == b@),
{
    if a.len() != b.len() {
        return false;
    }
    let mut i: usize = 0;
    while i < a.len()
        invariant
            i <= a@.len(),
            a@.len() == b@.len(),
            forall|j: int| 0 <= j < i ==> a@[j] == b@[j],
        decreases a@.len() - i,
    {
        if a[i] != b[i] {
            return false;
        }
        i = i + 1;
    }
    assert(a@ =~= b@);
    true
}

impl DataType {
    /// The names of the fields, as bytes.
    pub closed spec fn names(&self) -> Seq<Seq<u8>> {
        self.field_names@.map_values(|s: Symbol| s.name_spec())
    }

    pub fn new(field_names: Vec<Symbol>) -> (r: Self)
        ensures
            r.names() == field_names@.map_values(|s: Symbol| s.name_spec()),
    {
        DataType { field_names }
    }

    /// The number of fields.
    pub fn n_fields(&self) -> (r: usize)
        ensures
            r == self.names().len(),
    {
        self.field_names.len()
    }

    /// The index of the first field called `name`; `NoSuchField` if there is none.
    pub fn field_index(&self, name: &Symbol) -> (r: Result<usize, JlrsError>)
        ensures
            r matches Ok(i) ==> i < self.names().len() && self.names()[i as int] == name.name_spec() && forall|
                j: int,
            | 0 <= j < i ==> self.names()[j] != name.name_spec(),
            r is Err ==> r == Err::<usize, JlrsError>(JlrsError::NoSuchField) && forall|j: int|
                0 <= j < self.names().len() ==> self.names()[j] != name.name_spec(),
    {
        let mut i: usize = 0;
        while i < self.field_names.len()
            invariant
                i <= self.names().len(),
                self.names().len() == self.field_names@.len(),
                forall|j: int| 0 <= j < i ==> self.names()[j] != name.name_spec(),
            decreases self.field_names@.len() - i,
        {
            if bytes_eq(self.field_names[i].as_bytes(), name.as_bytes()) {
                return Ok(i);
            }
            i = i + 1;
        }
        Err(JlrsError::NoSuchField)
    }
}

/// What can index fields and array elements.
pub trait FieldIndexPriv {
    /// The index of the field of `ty` that `self` designates.
    fn field_index(&self, ty: &DataType) -> Result<usize, JlrsError>;

    /// The position of the element of an array with dimensions `data` that `self` designates.
    fn array_index(&self, data: &Dimensions) -> Result<usize, JlrsError>
        requires
            data.wf(),
    ;
}

/// Implemented by every type that can index fields and array elements.
pub trait FieldIndex: FieldIndexPriv {

}

impl<I: FieldIndexPriv> FieldIndex for I {

}

impl FieldIndexPriv for Symbol {
    /// The first field with this name.
    fn field_index(&self, ty: &DataType) -> (r: Result<usize, JlrsError>)
        ensures
            r matches Ok(i) ==> i < ty.names().len() && ty.names()[i as int] == self.name_spec(),
            r is Err ==> r == Err::<usize, JlrsError>(JlrsError::NoSuchField) && forall|j: int|
                0 <= j < ty.names().len() ==> ty.names()[j] != self.name_spec(),
    {
        ty.field_index(self)
    }

    /// A name cannot index an array.
    fn array_index(&self, data: &Dimensions) -> (r: Result<usize, JlrsError>)
        ensures
            r == Err::<usize, JlrsError>(JlrsError::ArrayNeedsNumericalIndex),
    {
        Err(JlrsError::ArrayNeedsNumericalIndex)
    }
}

/// The field at position `n`, if `ty` has that many fields.
fn numbered_field(n: usize, ty: &DataType) -> (r: Result<usize, JlrsError>)
    ensures
        n < ty.names().len() ==> r == Ok::<usize, JlrsError>(n),
        n >= ty.names().len() ==> r == Err::<usize, JlrsError>(
            JlrsError::OutOfBounds { idx: n, n_fields: ty.names().len() as usize },
        ),
{
    let n_fields = ty.n_fields();
    if n_fields <= n {
        return Err(JlrsError::OutOfBounds { idx: n, n_fields });
    }
    Ok(n)
}

impl FieldIndexPriv for usize {
    /// Field number `self`.
    fn field_index(&self, ty: &DataType) -> (r: Result<usize, JlrsError>)
        ensures
            *self < ty.names().len() ==> r == Ok::<usize, JlrsError>(*self),
            *self >= ty.names().len() ==> r == Err::<usize, JlrsError>(
                JlrsError::OutOfBounds { idx: *self, n_fields: ty.names().len() as usize },
            ),
    {
        numbered_field(*self, ty)
    }

    /// Element `self` of a one-dimensional array.
    fn array_index(&self, data: &Dimensions) -> (r: Result<usize, JlrsError>)
        ensures
            data.view().len() != 1 ==> r == Err::<usize, JlrsError>(
                JlrsError::IllegalNumberOfDimensions { expected: data.view().len() as usize, found: 1 },
            ),
            data.view().len() == 1 && *self >= data.view()[0] ==> r == Err::<usize, JlrsError>(
                JlrsError::InvalidIndex,
            ),
            data.view().len() == 1 && *self < data.view()[0] ==> r == Ok::<usize, JlrsError>(*self),
    {
        let idx = [*self];
        let r = data.index_of(idx.as_slice());
        proof {
            if data.view().len() == 1 && *self < data.view()[0] {
                assert(idx@.drop_first() =~= Seq::<usize>::empty());
                assert(data.view().drop_first() =~= Seq::<usize>::empty());
                assert(linear_index(data.view(), idx@) == *self + data.view()[0] * linear_index(
                    data.view().drop_first(),
                    idx@.drop_first(),
                ));
            }
        }
        r
    }
}

impl FieldIndexPriv for Vec<usize> {
    /// Field number `self[0]`, if `self` has one entry.
    fn field_index(&self, ty: &DataType) -> (r: Result<usize, JlrsError>)
        ensures
            self@.len() != 1 ==> r == Err::<usize, JlrsError>(JlrsError::FieldNeedsSimpleIndex),
            self@.len() == 1 && self@[0] < ty.names().len() ==> r == Ok::<usize, JlrsError>(self@[0]),
            self@.len() == 1 && self@[0] >= ty.names().len() ==> r == Err::<usize, JlrsError>(
                JlrsError::OutOfBounds { idx: self@[0], n_fields: ty.names().len() as usize },
            ),
    {
        if self.len() != 1 {
            return Err(JlrsError::FieldNeedsSimpleIndex);
        }
        numbered_field(self[0], ty)
    }

    /// The element at the multidimensional index `self`.
    fn array_index(&self, data: &Dimensions) -> (r: Result<usize, JlrsError>)
        ensures
            self@.len() != data.view().len() ==> r == Err::<usize, JlrsError>(
                JlrsError::IllegalNumberOfDimensions { expected: data.view().len() as usize, found: self@.len() as usize },
            ),
            self@.len() == data.view().len() && !in_bounds(data.view(), self@) ==> r == Err::<usize, JlrsError>(
                JlrsError::InvalidIndex,
            ),
            in_bounds(data.view(), self@) ==> r == Ok::<usize, JlrsError>(
                linear_index(data.view(), self@) as usize,
            ),
    {
        data.index_of(self.as_slice())
    }
}

} // verus!
