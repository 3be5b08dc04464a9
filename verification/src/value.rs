use vstd::prelude::*;
use crate::ipc::{OpaqueReceiver, OpaqueSender};
use crate::shmem::SharedMemory;
use crate::transport::{FrameRx, FrameTx};

verus! {

/// A transmissible value: a tree of plain data whose leaves may also be
/// channel endpoints or shared-memory regions. Messages are tree-shaped by
/// construction; cycles cannot be expressed.
pub enum Value {
    Unit,
    U64(u64),
    Str(String),
    Bytes(Vec<u8>),
    List(Vec<Value>),
    Sender(OpaqueSender),
    Receiver(OpaqueReceiver),
    Memory(SharedMemory),
}

/// The mathematical shape of a `Value`: plain data is taken to its
/// sequence view, while endpoint leaves keep the identity of the
/// underlying transport handle.
#[verifier::ext_equal]
pub enum AbsValue {
    Unit,
    U64(u64),
    Str(Seq<char>),
    Bytes(Seq<u8>),
    List(Seq<AbsValue>),
    Sender(FrameTx),
    Receiver(FrameRx),
    Memory(SharedMemory),
}

pub open spec fn abs(v: Value) -> AbsValue
    decreases v,
{
    match v {
        Value::Unit => AbsValue::Unit,
        Value::U64(x) => AbsValue::U64(x),
        Value::Str(s) => AbsValue::Str(s@),
        Value::Bytes(b) => AbsValue::Bytes(b@),
        Value::List(cs) => AbsValue::List(abs_seq(cs@)),
        Value::Sender(s) => AbsValue::Sender(s.tx),
        Value::Receiver(r) => AbsValue::Receiver(r.rx),
        Value::Memory(m) => AbsValue::Memory(m),
    }
}

pub open spec fn abs_seq(s: Seq<Value>) -> Seq<AbsValue>
    decreases s,
{
    if s.len() == 0 {
        Seq::empty()
    } else {
        seq![abs(s[0])] + abs_seq(s.drop_first())
    }
}

pub proof fn lemma_abs_seq(s: Seq<Value>)
    ensures
        abs_seq(s).len() == s.len(),
        forall|i: int| 0 <= i < s.len() ==> abs_seq(s)[i] == abs(s[i]),
    decreases s.len(),
{
    if s.len() > 0 {
        lemma_abs_seq(s.drop_first());
        assert forall|i: int| 0 <= i < s.len() implies abs_seq(s)[i] == abs(s[i]) by {
            if i > 0 {
                assert(abs_seq(s.drop_first())[i - 1] == abs(s.drop_first()[i - 1]));
                assert(s.drop_first()[i - 1] == s[i]);
            }
        }
    }
}

pub proof fn lemma_abs_seq_snoc(s: Seq<Value>, v: Value)
    ensures
        abs_seq(s + seq![v]) == abs_seq(s) + seq![abs(v)],
{
    lemma_abs_seq(s + seq![v]);
    lemma_abs_seq(s);
    assert forall|i: int| 0 <= i < s.len() + 1 implies abs_seq(s + seq![v])[i] == (abs_seq(s)
        + seq![abs(v)])[i] by {
        if i < s.len() {
            assert((s + seq![v])[i] == s[i]);
        } else {
            assert((s + seq![v])[i] == v);
        }
    }
    assert(abs_seq(s + seq![v]) =~= abs_seq(s) + seq![abs(v)]);
}

/// A structural size used as a termination measure when walking a tree.
pub open spec fn size_of(v: Value) -> nat
    decreases v,
{
    match v {
        Value::List(cs) => 1 + size_seq(cs@),
        _ => 1,
    }
}

pub open spec fn size_seq(s: Seq<Value>) -> nat
    decreases s,
{
    if s.len() == 0 {
        0
    } else {
        size_of(s[0]) + size_seq(s.drop_first())
    }
}

pub proof fn lemma_size_elem(s: Seq<Value>, i: int)
    requires
        0 <= i < s.len(),
    ensures
        size_of(s[i]) <= size_seq(s),
    decreases s.len(),
{
    if i > 0 {
        lemma_size_elem(s.drop_first(), i - 1);
        assert(s.drop_first()[i - 1] == s[i]);
    }
}

/// Equality of the plain data in two values. Endpoint leaves carry no
/// comparable data, so a value containing one is equal to nothing; memory
/// regions are equal when their lengths and bytes are.
pub open spec fn same_data(a: AbsValue, b: AbsValue) -> bool
    decreases a,
{
    match (a, b) {
        (AbsValue::Unit, AbsValue::Unit) => true,
        (AbsValue::U64(x), AbsValue::U64(y)) => x == y,
        (AbsValue::Str(x), AbsValue::Str(y)) => x == y,
        (AbsValue::Bytes(x), AbsValue::Bytes(y)) => x == y,
        (AbsValue::List(x), AbsValue::List(y)) => same_data_seq(x, y),
        (AbsValue::Memory(x), AbsValue::Memory(y)) => x@ == y@,
        _ => false,
    }
}

pub open spec fn same_data_seq(x: Seq<AbsValue>, y: Seq<AbsValue>) -> bool
    decreases x,
{
    if x.len() != y.len() {
        false
    } else if x.len() == 0 {
        true
    } else {
        same_data(x[0], y[0]) && same_data_seq(x.drop_first(), y.drop_first())
    }
}

pub proof fn lemma_same_data_seq_pointwise(x: Seq<AbsValue>, y: Seq<AbsValue>)
    ensures
        same_data_seq(x, y) == (x.len() == y.len() && forall|i: int|
            0 <= i < x.len() ==> same_data(#[trigger] x[i], y[i])),
    decreases x.len(),
{
    if x.len() == y.len() && x.len() > 0 {
        lemma_same_data_seq_pointwise(x.drop_first(), y.drop_first());
        assert(forall|i: int|
            0 <= i < x.drop_first().len() ==> #[trigger] x.drop_first()[i] == x[i + 1]);
        assert(forall|i: int|
            0 <= i < y.drop_first().len() ==> #[trigger] y.drop_first()[i] == y[i + 1]);
        if same_data(x[0], y[0]) && same_data_seq(x.drop_first(), y.drop_first()) {
            assert forall|i: int| 0 <= i < x.len() implies same_data(#[trigger] x[i], y[i]) by {
                if i > 0 {
                    assert(same_data(x.drop_first()[i - 1], y.drop_first()[i - 1]));
                }
            }
        }
        if x.len() == y.len() && (forall|i: int|
            0 <= i < x.len() ==> same_data(#[trigger] x[i], y[i])) {
            assert forall|i: int|
                0 <= i < x.drop_first().len() implies same_data(
                #[trigger] x.drop_first()[i],
                y.drop_first()[i],
            ) by {
                assert(same_data(x[i + 1], y[i + 1]));
            }
        }
    }
}

fn bytes_eq(a: &Vec<u8>, b: &Vec<u8>) -> (r: bool)
    ensures
        r == (a@ == b@),
{
    if a.len() != b.len() {
        return false;
    }
    let n = a.len();
    let mut i: usize = 0;
    while i < n
        invariant
            i <= n,
            n == a@.len() == b@.len(),
            forall|j: int| 0 <= j < i ==> a@[j] == b@[j],
        decreases n - i,
    {
        if a[i] != b[i] {
            return false;
        }
        i = i + 1;
    }
    proof {
        assert(a@ =~= b@);
    }
    true
}

impl Value {
    /// Compares the plain data of two values, as `same_data` defines it:
    /// endpoint leaves compare equal to nothing, memory regions compare by
    /// length and bytes.
    pub fn value_eq(&self, other: &Value) -> (r: bool)
        ensures
            r == same_data(abs(*self), abs(*other)),
        decreases size_of(*self),
    {
        match (self, other) {
            (Value::Unit, Value::Unit) => true,
            (Value::U64(x), Value::U64(y)) => *x == *y,
            (Value::Str(x), Value::Str(y)) => x.eq(y),
            (Value::Bytes(x), Value::Bytes(y)) => bytes_eq(x, y),
            (Value::Memory(x), Value::Memory(y)) => bytes_eq(x.bytes(), y.bytes()),
            (Value::List(x), Value::List(y)) => {
                proof {
                    lemma_abs_seq(x@);
                    lemma_abs_seq(y@);
                    lemma_same_data_seq_pointwise(abs_seq(x@), abs_seq(y@));
                    assert(abs(*self) == AbsValue::List(abs_seq(x@)));
                    assert(abs(*other) == AbsValue::List(abs_seq(y@)));
                    assert(same_data(abs(*self), abs(*other)) == same_data_seq(
                        abs_seq(x@),
                        abs_seq(y@),
                    ));
                }
                if x.len() != y.len() {
                    return false;
                }
                let n = x.len();
                let mut i: usize = 0;
                while i < n
                    invariant
                        i <= n,
                        n == x@.len() == y@.len(),
                        forall|j: int|
                            0 <= j < i ==> same_data(
                                #[trigger] abs_seq(x@)[j],
                                abs_seq(y@)[j],
                            ),
                        abs(*self) == AbsValue::List(abs_seq(x@)),
                        abs(*other) == AbsValue::List(abs_seq(y@)),
                        abs_seq(x@).len() == n,
                        abs_seq(y@).len() == n,
                        forall|j: int| 0 <= j < n ==> #[trigger] abs_seq(x@)[j] == abs(x@[j]),
                        forall|j: int| 0 <= j < n ==> #[trigger] abs_seq(y@)[j] == abs(y@[j]),
                        same_data_seq(abs_seq(x@), abs_seq(y@)) == (forall|j: int|
                            0 <= j < n ==> same_data(#[trigger] abs_seq(x@)[j], abs_seq(y@)[j])),
                        *self == Value::List(*x),
                    decreases n - i,
                {
                    proof {
                        lemma_size_elem(x@, i as int);
                    }
                    if !x[i].value_eq(&y[i]) {
                        proof {
                            assert(!same_data(abs_seq(x@)[i as int], abs_seq(y@)[i as int]));
                            assert(!same_data_seq(abs_seq(x@), abs_seq(y@)));
                        }
                        return false;
                    }
                    i = i + 1;
                }
                proof {
                    assert(same_data_seq(abs_seq(x@), abs_seq(y@)));
                }
                true
            },
            _ => {
                proof {
                    assert(!same_data(abs(*self), abs(*other)));
                }
                false
            },
        }
    }
}

} // verus!
