//! Tensor descriptions as a GGUF directory gives them: dtype, dims, byte size.

use vstd::prelude::*;

verus! {

/// Element types of a GGUF tensor.
#[derive(Debug, Clone, Copy, PartialEq, Eq, Structural)]
pub enum GgmlDType {
    F32,
    F16,
    BF16,
    Q4_0,
    Q4_1,
    Q5_0,
    Q5_1,
    Q8_0,
    Q8_1,
    Q2K,
    Q3K,
    Q4K,
    Q5K,
    Q6K,
    Q8K,
    Iq1M,
    Iq1S,
    Iq2S,
    Iq2Xs,
    Iq2Xxs,
    Iq3S,
    Iq3Xxs,
    Iq4Nl,
    Iq4Xs,
    Mxfp4,
}

/// Elements per Q8_0 block.
pub const QK8_0: usize = 32;

/// Bytes per Q8_0 block: an F16 scale and 32 signed bytes.
pub const Q8_0_BLOCK_BYTES: usize = 34;

/// Elements per K-quant super-block.
pub const QK_K: usize = 256;

impl GgmlDType {
    /// Elements per block.
    pub open spec fn spec_block_size(self) -> nat {
        match self {
            GgmlDType::F32 | GgmlDType::F16 | GgmlDType::BF16 => 1,
            GgmlDType::Q4_0 | GgmlDType::Q4_1 | GgmlDType::Q5_0 | GgmlDType::Q5_1
            | GgmlDType::Q8_0 | GgmlDType::Q8_1 | GgmlDType::Iq4Nl | GgmlDType::Mxfp4 => 32,
            _ => 256,
        }
    }

    /// Bytes per block.
    pub open spec fn spec_type_size(self) -> nat {
        match self {
            GgmlDType::F32 => 4,
            GgmlDType::F16 => 2,
            GgmlDType::BF16 => 2,
            GgmlDType::Q4_0 => 18,
            GgmlDType::Q4_1 => 20,
            GgmlDType::Q5_0 => 22,
            GgmlDType::Q5_1 => 24,
            GgmlDType::Q8_0 => 34,
            GgmlDType::Q8_1 => 36,
            GgmlDType::Q2K => 84,
            GgmlDType::Q3K => 110,
            GgmlDType::Q4K => 144,
            GgmlDType::Q5K => 176,
            GgmlDType::Q6K => 210,
            GgmlDType::Q8K => 292,
            GgmlDType::Iq1M => 56,
            GgmlDType::Iq1S => 50,
            GgmlDType::Iq2S => 82,
            GgmlDType::Iq2Xs => 74,
            GgmlDType::Iq2Xxs => 66,
            GgmlDType::Iq3S => 110,
            GgmlDType::Iq3Xxs => 98,
            GgmlDType::Iq4Nl => 18,
            GgmlDType::Iq4Xs => 136,
            GgmlDType::Mxfp4 => 17,
        }
    }

    /// The name of the type.
    pub open spec fn spec_text(self) -> Seq<char> {
        match self {
            GgmlDType::F32 => "F32"@,
            GgmlDType::F16 => "F16"@,
            GgmlDType::BF16 => "BF16"@,
            GgmlDType::Q4_0 => "Q4_0"@,
            GgmlDType::Q4_1 => "Q4_1"@,
            GgmlDType::Q5_0 => "Q5_0"@,
            GgmlDType::Q5_1 => "Q5_1"@,
            GgmlDType::Q8_0 => "Q8_0"@,
            GgmlDType::Q8_1 => "Q8_1"@,
            GgmlDType::Q2K => "Q2K"@,
            GgmlDType::Q3K => "Q3K"@,
            GgmlDType::Q4K => "Q4K"@,
            GgmlDType::Q5K => "Q5K"@,
            GgmlDType::Q6K => "Q6K"@,
            GgmlDType::Q8K => "Q8K"@,
            GgmlDType::Iq1M => "Iq1M"@,
            GgmlDType::Iq1S => "Iq1S"@,
            GgmlDType::Iq2S => "Iq2S"@,
            GgmlDType::Iq2Xs => "Iq2Xs"@,
            GgmlDType::Iq2Xxs => "Iq2Xxs"@,
            GgmlDType::Iq3S => "Iq3S"@,
            GgmlDType::Iq3Xxs => "Iq3Xxs"@,
            GgmlDType::Iq4Nl => "Iq4Nl"@,
            GgmlDType::Iq4Xs => "Iq4Xs"@,
            GgmlDType::Mxfp4 => "Mxfp4"@,
        }
    }

    /// The name of the type.
    pub fn text(self) -> (r: &'static str)
        ensures
            r@ == self.spec_text(),
    {
        match self {
            GgmlDType::F32 => "F32",
            GgmlDType::F16 => "F16",
            GgmlDType::BF16 => "BF16",
            GgmlDType::Q4_0 => "Q4_0",
            GgmlDType::Q4_1 => "Q4_1",
            GgmlDType::Q5_0 => "Q5_0",
            GgmlDType::Q5_1 => "Q5_1",
            GgmlDType::Q8_0 => "Q8_0",
            GgmlDType::Q8_1 => "Q8_1",
            GgmlDType::Q2K => "Q2K",
            GgmlDType::Q3K => "Q3K",
            GgmlDType::Q4K => "Q4K",
            GgmlDType::Q5K => "Q5K",
            GgmlDType::Q6K => "Q6K",
            GgmlDType::Q8K => "Q8K",
            GgmlDType::Iq1M => "Iq1M",
            GgmlDType::Iq1S => "Iq1S",
            GgmlDType::Iq2S => "Iq2S",
            GgmlDType::Iq2Xs => "Iq2Xs",
            GgmlDType::Iq2Xxs => "Iq2Xxs",
            GgmlDType::Iq3S => "Iq3S",
            GgmlDType::Iq3Xxs => "Iq3Xxs",
            GgmlDType::Iq4Nl => "Iq4Nl",
            GgmlDType::Iq4Xs => "Iq4Xs",
            GgmlDType::Mxfp4 => "Mxfp4",
        }
    }

    pub fn block_size(self) -> (r: usize)
        ensures
            r == self.spec_block_size(),
            r >= 1,
    {
        match self {
            GgmlDType::F32 | GgmlDType::F16 | GgmlDType::BF16 => 1,
            GgmlDType::Q4_0 | GgmlDType::Q4_1 | GgmlDType::Q5_0 | GgmlDType::Q5_1
            | GgmlDType::Q8_0 | GgmlDType::Q8_1 | GgmlDType::Iq4Nl | GgmlDType::Mxfp4 => 32,
            _ => 256,
        }
    }

    pub fn type_size(self) -> (r: usize)
        ensures
            r == self.spec_type_size(),
            1 <= r <= 292,
    {
        match self {
            GgmlDType::F32 => 4,
            GgmlDType::F16 => 2,
            GgmlDType::BF16 => 2,
            GgmlDType::Q4_0 => 18,
            GgmlDType::Q4_1 => 20,
            GgmlDType::Q5_0 => 22,
            GgmlDType::Q5_1 => 24,
            GgmlDType::Q8_0 => 34,
            GgmlDType::Q8_1 => 36,
            GgmlDType::Q2K => 84,
            GgmlDType::Q3K => 110,
            GgmlDType::Q4K => 144,
            GgmlDType::Q5K => 176,
            GgmlDType::Q6K => 210,
            GgmlDType::Q8K => 292,
            GgmlDType::Iq1M => 56,
            GgmlDType::Iq1S => 50,
            GgmlDType::Iq2S => 82,
            GgmlDType::Iq2Xs => 74,
            GgmlDType::Iq2Xxs => 66,
            GgmlDType::Iq3S => 110,
            GgmlDType::Iq3Xxs => 98,
            GgmlDType::Iq4Nl => 18,
            GgmlDType::Iq4Xs => 136,
            GgmlDType::Mxfp4 => 17,
        }
    }
}

/// The product of the dims, 1 for none.
pub open spec fn product(dims: Seq<u64>) -> nat
    decreases dims.len(),
{
    if dims.len() == 0 {
        1
    } else {
        product(dims.drop_last()) * dims.last() as nat
    }
}

/// The product of the dims, each counted as at least 1.
pub open spec fn padded_product(dims: Seq<u64>) -> nat
    decreases dims.len(),
{
    if dims.len() == 0 {
        1
    } else {
        padded_product(dims.drop_last()) * if dims.last() == 0 {
            1nat
        } else {
            dims.last() as nat
        }
    }
}

/// Bytes of a row of `inner` elements: whole blocks only.
pub open spec fn row_size(dtype: GgmlDType, inner: nat) -> nat {
    (inner / dtype.spec_block_size()) * dtype.spec_type_size()
}

/// One entry of the tensor directory. `dims` has the outermost dim first;
/// the last dim is contiguous in memory.
#[derive(Debug, Clone)]
pub struct TensorInfo {
    pub name: String,
    pub dims: Vec<u64>,
    pub dtype: GgmlDType,
}

impl TensorInfo {
    /// The tensor's sizes can be computed in `usize`: the product of the dims
    /// (a zero dim counted as one), in bytes, fits.
    pub open spec fn fits(&self) -> bool {
        padded_product(self.dims@) * self.dtype.spec_type_size() <= usize::MAX
    }

    /// Elements in the tensor.
    pub open spec fn elem_count(&self) -> nat {
        product(self.dims@)
    }

    /// Bytes of the tensor's data.
    pub open spec fn byte_size(&self) -> nat {
        row_size(self.dtype, product(self.dims@))
    }

    pub fn elements(&self) -> (r: usize)
        requires
            self.fits(),
        ensures
            r == self.elem_count(),
    {
        let r = dims_product(&self.dims);
        r
    }

    pub fn size_in_bytes(&self) -> (r: usize)
        requires
            self.fits(),
        ensures
            r == self.byte_size(),
    {
        let n: usize = self.elements();
        let b: usize = self.dtype.block_size();
        let t: usize = self.dtype.type_size();
        proof {
            lemma_product_le_padded(self.dims@);
            let pp = padded_product(self.dims@);
            assert(n / b <= n) by (nonlinear_arith)
                requires
                    b >= 1,
            ;
            assert((n / b) * t <= pp * t) by (nonlinear_arith)
                requires
                    n / b <= pp,
                    t >= 0,
            ;
        }
        (n / b) * t
    }
}

pub proof fn lemma_padded_product_pos(dims: Seq<u64>)
    ensures
        padded_product(dims) >= 1,
    decreases dims.len(),
{
    if dims.len() > 0 {
        lemma_padded_product_pos(dims.drop_last());
        let a = padded_product(dims.drop_last());
        let b = if dims.last() == 0 {
            1nat
        } else {
            dims.last() as nat
        };
        assert(a * b >= 1) by (nonlinear_arith)
            requires
                a >= 1,
                b >= 1,
        ;
    }
}

pub proof fn lemma_product_le_padded(dims: Seq<u64>)
    ensures
        product(dims) <= padded_product(dims),
    decreases dims.len(),
{
    if dims.len() > 0 {
        lemma_product_le_padded(dims.drop_last());
        let a = product(dims.drop_last());
        let pa = padded_product(dims.drop_last());
        let b = if dims.last() == 0 {
            1nat
        } else {
            dims.last() as nat
        };
        assert(a * dims.last() as nat <= pa * b) by (nonlinear_arith)
            requires
                a <= pa,
                dims.last() as nat <= b,
        ;
    }
}

/// Dropping trailing dims does not raise the padded product.
pub proof fn lemma_padded_product_prefix(dims: Seq<u64>, k: int)
    requires
        0 <= k <= dims.len(),
    ensures
        padded_product(dims.take(k)) <= padded_product(dims),
    decreases dims.len() - k,
{
    if k == dims.len() {
        assert(dims.take(k) =~= dims);
    } else {
        lemma_padded_product_prefix(dims, k + 1);
        let t = dims.take(k + 1);
        assert(t.drop_last() =~= dims.take(k));
        lemma_padded_product_pos(dims.take(k));
        let a = padded_product(dims.take(k));
        let b = if t.last() == 0 {
            1nat
        } else {
            t.last() as nat
        };
        assert(a <= a * b) by (nonlinear_arith)
            requires
                a >= 1,
                b >= 1,
        ;
    }
}

/// The product of `dims`.
pub fn dims_product(dims: &Vec<u64>) -> (r: usize)
    requires
        padded_product(dims@) <= usize::MAX,
    ensures
        r == product(dims@),
{
    let mut acc: usize = 1;
    let mut i: usize = 0;
    proof {
        assert(dims@.take(0) =~= Seq::<u64>::empty());
    }
    while i < dims.len()
        invariant
            i <= dims@.len(),
            acc == product(dims@.take(i as int)),
            padded_product(dims@) <= usize::MAX,
        decreases dims@.len() - i,
    {
        proof {
            let t = dims@.take(i as int + 1);
            assert(t.drop_last() =~= dims@.take(i as int));
            lemma_padded_product_prefix(dims@, i as int + 1);
            lemma_product_le_padded(t);
            lemma_padded_product_pos(dims@.take(i as int));
            let a = padded_product(dims@.take(i as int));
            let b = if t.last() == 0 {
                1nat
            } else {
                t.last() as nat
            };
            assert(b <= a * b) by (nonlinear_arith)
                requires
                    a >= 1,
                    b >= 1,
            ;
            assert(dims@[i as int] <= usize::MAX);
        }
        acc = acc * (dims[i] as usize);
        i = i + 1;
    }
    proof {
        assert(dims@.take(dims@.len() as int) =~= dims@);
    }
    acc
}

} // verus!
