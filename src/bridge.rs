//! Conversion between interpreter values and the tree-shaped interchange value.
use vstd::prelude::*;

verus! {

/// A value as the script interpreter holds it.
///
/// Floating-point numbers are carried as their IEEE-754 bit pattern. A table
/// is the list of its (key, value) entries in iteration order; anything the
/// interchange form cannot hold (functions, handles, cyclic tables) arrives
/// as `Opaque` with the name of its kind.
pub enum NativeValue {
    Nil,
    Boolean(bool),
    Integer(i64),
    Number(u64),
    Str(String),
    Table(Vec<(NativeValue, NativeValue)>),
    Opaque(String),
}

/// The canonical interchange value: null, boolean, number, text, ordered
/// list, or string-keyed mapping. Floats are carried as IEEE-754 bits.
pub enum Interchange {
    Null,
    Bool(bool),
    Int(i64),
    Float(u64),
    Text(String),
    List(Vec<Interchange>),
    Object(Vec<(String, Interchange)>),
}

/// Why a native value has no interchange form.
#[derive(PartialEq, Eq, Structural, Clone, Copy, Debug)]
pub enum ConversionError {
    /// A function, handle or other value without an interchange shape.
    Unsupported,
    /// A NaN or infinite number.
    NonFiniteNumber,
    /// A table whose keys are neither all positive integers nor all strings.
    NonStringKey,
}

/// Mathematical model of `NativeValue`.
pub enum NativeModel {
    Nil,
    Boolean(bool),
    Integer(int),
    Number(u64),
    Str(Seq<char>),
    Table(Seq<(NativeModel, NativeModel)>),
    Opaque(Seq<char>),
}

/// Mathematical model of `Interchange`.
pub enum InterModel {
    Null,
    Bool(bool),
    Int(int),
    Float(u64),
    Text(Seq<char>),
    List(Seq<InterModel>),
    Object(Seq<(Seq<char>, InterModel)>),
}

pub open spec fn native_view(v: NativeValue) -> NativeModel
    decreases v,
{
    match v {
        NativeValue::Nil => NativeModel::Nil,
        NativeValue::Boolean(b) => NativeModel::Boolean(b),
        NativeValue::Integer(i) => NativeModel::Integer(i as int),
        NativeValue::Number(bits) => NativeModel::Number(bits),
        NativeValue::Str(s) => NativeModel::Str(s@),
        NativeValue::Table(es) => NativeModel::Table(entries_view(es@)),
        NativeValue::Opaque(n) => NativeModel::Opaque(n@),
    }
}

pub open spec fn entries_view(s: Seq<(NativeValue, NativeValue)>) -> Seq<(NativeModel, NativeModel)>
    decreases s,
{
    if s.len() == 0 {
        Seq::empty()
    } else {
        entries_view(s.subrange(0, s.len() - 1)).push(
            (native_view(s[s.len() - 1].0), native_view(s[s.len() - 1].1)),
        )
    }
}

pub open spec fn inter_view(v: Interchange) -> InterModel
    decreases v,
{
    match v {
        Interchange::Null => InterModel::Null,
        Interchange::Bool(b) => InterModel::Bool(b),
        Interchange::Int(i) => InterModel::Int(i as int),
        Interchange::Float(bits) => InterModel::Float(bits),
        Interchange::Text(s) => InterModel::Text(s@),
        Interchange::List(xs) => InterModel::List(items_view(xs@)),
        Interchange::Object(es) => InterModel::Object(fields_view(es@)),
    }
}

pub open spec fn items_view(s: Seq<Interchange>) -> Seq<InterModel>
    decreases s,
{
    if s.len() == 0 {
        Seq::empty()
    } else {
        items_view(s.subrange(0, s.len() - 1)).push(inter_view(s[s.len() - 1]))
    }
}

pub open spec fn fields_view(s: Seq<(String, Interchange)>) -> Seq<(Seq<char>, InterModel)>
    decreases s,
{
    if s.len() == 0 {
        Seq::empty()
    } else {
        fields_view(s.subrange(0, s.len() - 1)).push(
            (s[s.len() - 1].0@, inter_view(s[s.len() - 1].1)),
        )
    }
}

impl View for NativeValue {
    type V = NativeModel;

    open spec fn view(&self) -> NativeModel {
        native_view(*self)
    }
}

impl View for Interchange {
    type V = InterModel;

    open spec fn view(&self) -> InterModel {
        inter_view(*self)
    }
}

/// The bit pattern of a finite IEEE-754 double: its exponent is not all ones.
pub open spec fn is_finite_bits(bits: u64) -> bool {
    (bits >> 52u64) & 0x7ffu64 != 0x7ffu64
}

/// A key that marks a list position: a positive integer.
pub open spec fn is_index_key(k: NativeModel) -> bool {
    k is Integer && k->Integer_0 >= 1
}

pub open spec fn index_keyed(es: Seq<(NativeModel, NativeModel)>) -> bool {
    forall|i: int| 0 <= i < es.len() ==> is_index_key(#[trigger] es[i].0)
}

pub open spec fn text_keyed(es: Seq<(NativeModel, NativeModel)>) -> bool {
    forall|i: int| 0 <= i < es.len() ==> (#[trigger] es[i].0) is Str
}

/// The largest key among the first `n` entries, or 0.
pub open spec fn max_index(es: Seq<(NativeModel, NativeModel)>, n: int) -> int
    decreases n,
{
    if n <= 0 {
        0
    } else {
        let m = max_index(es, n - 1);
        let k = es[n - 1].0->Integer_0;
        if k > m {
            k
        } else {
            m
        }
    }
}

/// What a native value becomes in interchange form.
///
/// A table whose keys are all positive integers becomes a list as long as
/// its largest key: position `k - 1` holds the converted value of the last
/// entry with key `k`, and positions without an entry hold null. A table
/// whose keys are all strings becomes a mapping with its entries in order.
/// Any other table is refused. Values are converted in entry order and the
/// first failure is the result.
pub open spec fn to_inter(v: NativeModel) -> Result<InterModel, ConversionError>
    decreases v, 0int,
{
    match v {
        NativeModel::Nil => Ok(InterModel::Null),
        NativeModel::Boolean(b) => Ok(InterModel::Bool(b)),
        NativeModel::Integer(i) => Ok(InterModel::Int(i)),
        NativeModel::Number(bits) => if is_finite_bits(bits) {
            Ok(InterModel::Float(bits))
        } else {
            Err(ConversionError::NonFiniteNumber)
        },
        NativeModel::Str(s) => Ok(InterModel::Text(s)),
        NativeModel::Opaque(_) => Err(ConversionError::Unsupported),
        NativeModel::Table(es) => if index_keyed(es) {
            match list_slots(es, es.len() as int) {
                Ok(items) => Ok(InterModel::List(items)),
                Err(e) => Err(e),
            }
        } else if text_keyed(es) {
            match object_fields(es, es.len() as int) {
                Ok(fields) => Ok(InterModel::Object(fields)),
                Err(e) => Err(e),
            }
        } else {
            Err(ConversionError::NonStringKey)
        },
    }
}

/// The list built from the first `n` entries of an index-keyed table.
pub open spec fn list_slots(es: Seq<(NativeModel, NativeModel)>, n: int) -> Result<
    Seq<InterModel>,
    ConversionError,
>
    decreases es, n,
{
    if n <= 0 || n > es.len() {
        Ok(Seq::new(max_index(es, es.len() as int) as nat, |j: int| InterModel::Null))
    } else {
        match list_slots(es, n - 1) {
            Err(e) => Err(e),
            Ok(items) => match to_inter(es[n - 1].1) {
                Err(e) => Err(e),
                Ok(x) => Ok(items.update(es[n - 1].0->Integer_0 - 1, x)),
            },
        }
    }
}

/// The fields built from the first `n` entries of a string-keyed table.
pub open spec fn object_fields(es: Seq<(NativeModel, NativeModel)>, n: int) -> Result<
    Seq<(Seq<char>, InterModel)>,
    ConversionError,
>
    decreases es, n,
{
    if n <= 0 || n > es.len() {
        Ok(Seq::empty())
    } else {
        match object_fields(es, n - 1) {
            Err(e) => Err(e),
            Ok(fields) => match to_inter(es[n - 1].1) {
                Err(e) => Err(e),
                Ok(x) => Ok(fields.push((es[n - 1].0->Str_0, x))),
            },
        }
    }
}

/// What an interchange value becomes in the interpreter: a list becomes a
/// table keyed 1, 2, ... in order, a mapping a table keyed by its names.
pub open spec fn from_inter(j: InterModel) -> NativeModel
    decreases j, 0int,
{
    match j {
        InterModel::Null => NativeModel::Nil,
        InterModel::Bool(b) => NativeModel::Boolean(b),
        InterModel::Int(i) => NativeModel::Integer(i),
        InterModel::Float(bits) => NativeModel::Number(bits),
        InterModel::Text(s) => NativeModel::Str(s),
        InterModel::List(xs) => NativeModel::Table(list_entries(xs, xs.len() as int)),
        InterModel::Object(fs) => NativeModel::Table(field_entries(fs, fs.len() as int)),
    }
}

pub open spec fn list_entries(xs: Seq<InterModel>, n: int) -> Seq<(NativeModel, NativeModel)>
    decreases xs, n,
{
    if n <= 0 || n > xs.len() {
        Seq::empty()
    } else {
        list_entries(xs, n - 1).push((NativeModel::Integer(n), from_inter(xs[n - 1])))
    }
}

pub open spec fn field_entries(fs: Seq<(Seq<char>, InterModel)>, n: int) -> Seq<
    (NativeModel, NativeModel),
>
    decreases fs, n,
{
    if n <= 0 || n > fs.len() {
        Seq::empty()
    } else {
        field_entries(fs, n - 1).push((NativeModel::Str(fs[n - 1].0), from_inter(fs[n - 1].1)))
    }
}

/// Every list inside the value is short enough for its positions to be
/// interpreter integers.
pub open spec fn lists_fit(j: InterModel) -> bool
    decreases j,
{
    match j {
        InterModel::List(xs) => xs.len() < i64::MAX && forall|i: int|
            0 <= i < xs.len() ==> lists_fit(#[trigger] xs[i]),
        InterModel::Object(fs) => forall|i: int| 0 <= i < fs.len() ==> lists_fit(#[trigger] fs[i].1),
        _ => true,
    }
}

proof fn lemma_entries_view(s: Seq<(NativeValue, NativeValue)>)
    ensures
        entries_view(s).len() == s.len(),
        forall|i: int|
            0 <= i < s.len() ==> #[trigger] entries_view(s)[i] == (
                native_view(s[i].0),
                native_view(s[i].1),
            ),
    decreases s.len(),
{
    if s.len() > 0 {
        lemma_entries_view(s.subrange(0, s.len() - 1));
    }
}

proof fn lemma_entries_view_push(s: Seq<(NativeValue, NativeValue)>, x: (NativeValue, NativeValue))
    ensures
        entries_view(s.push(x)) == entries_view(s).push((native_view(x.0), native_view(x.1))),
{
    assert(s.push(x).subrange(0, s.len() as int) =~= s);
}

proof fn lemma_items_view(s: Seq<Interchange>)
    ensures
        items_view(s).len() == s.len(),
        forall|i: int| 0 <= i < s.len() ==> #[trigger] items_view(s)[i] == inter_view(s[i]),
    decreases s.len(),
{
    if s.len() > 0 {
        lemma_items_view(s.subrange(0, s.len() - 1));
    }
}

proof fn lemma_items_view_update(s: Seq<Interchange>, i: int, x: Interchange)
    requires
        0 <= i < s.len(),
    ensures
        items_view(s.update(i, x)) == items_view(s).update(i, inter_view(x)),
{
    lemma_items_view(s);
    lemma_items_view(s.update(i, x));
    assert(items_view(s.update(i, x)) =~= items_view(s).update(i, inter_view(x)));
}

proof fn lemma_items_view_push(s: Seq<Interchange>, x: Interchange)
    ensures
        items_view(s.push(x)) == items_view(s).push(inter_view(x)),
{
    assert(s.push(x).subrange(0, s.len() as int) =~= s);
}

proof fn lemma_fields_view(s: Seq<(String, Interchange)>)
    ensures
        fields_view(s).len() == s.len(),
        forall|i: int|
            0 <= i < s.len() ==> #[trigger] fields_view(s)[i] == (s[i].0@, inter_view(s[i].1)),
    decreases s.len(),
{
    if s.len() > 0 {
        lemma_fields_view(s.subrange(0, s.len() - 1));
    }
}

proof fn lemma_fields_view_push(s: Seq<(String, Interchange)>, x: (String, Interchange))
    ensures
        fields_view(s.push(x)) == fields_view(s).push((x.0@, inter_view(x.1))),
{
    assert(s.push(x).subrange(0, s.len() as int) =~= s);
}

proof fn lemma_object_not_fit(f: Seq<(Seq<char>, InterModel)>, i: int)
    requires
        0 <= i < f.len(),
        !lists_fit(f[i].1),
    ensures
        !lists_fit(InterModel::Object(f)),
{
    let o = InterModel::Object(f);
    assert(decreases_to!(o => o->Object_0));
    assert(decreases_to!(o->Object_0 => o->Object_0[i]));
    assert(decreases_to!(o->Object_0[i] => o->Object_0[i].1));
}

/// Whether every list inside `j` is short enough to be rebuilt in the
/// interpreter: the check to make before `from_interchange`.
pub fn fits_interpreter(j: &Interchange) -> (r: bool)
    ensures
        r == lists_fit(j@),
    decreases j,
{
    match j {
        Interchange::List(xs) => {
            proof {
                lemma_items_view(xs@);
            }
            if xs.len() as u64 >= 9223372036854775807u64 {
                return false;
            }
            let mut i: usize = 0;
            while i < xs.len()
                invariant
                    i <= xs.len(),
                    *j == Interchange::List(*xs),
                    items_view(xs@).len() == xs@.len(),
                    forall|k: int| 0 <= k < xs@.len() ==> #[trigger] items_view(xs@)[k] == inter_view(xs@[k]),
                    forall|k: int| 0 <= k < i ==> lists_fit(#[trigger] items_view(xs@)[k]),
                decreases xs.len() - i,
            {
                proof {
                    assert(decreases_to!(*xs => xs[i as int]));
                    assert(decreases_to!(*j => j->List_0));
                    assert(decreases_to!(j => xs[i as int]));
                }
                if !fits_interpreter(&xs[i]) {
                    assert(!lists_fit(items_view(xs@)[i as int]));
                    return false;
                }
                i = i + 1;
            }
            true
        },
        Interchange::Object(fs) => {
            proof {
                lemma_fields_view(fs@);
            }
            let mut i: usize = 0;
            while i < fs.len()
                invariant
                    i <= fs.len(),
                    *j == Interchange::Object(*fs),
                    fields_view(fs@).len() == fs@.len(),
                    forall|k: int|
                        0 <= k < fs@.len() ==> #[trigger] fields_view(fs@)[k] == (
                            fs@[k].0@,
                            inter_view(fs@[k].1),
                        ),
                    forall|k: int| 0 <= k < i ==> lists_fit(#[trigger] fields_view(fs@)[k].1),
                decreases fs.len() - i,
            {
                proof {
                    assert(decreases_to!(*fs => fs[i as int]));
                    assert(decreases_to!(*j => j->Object_0));
                    assert(decreases_to!(j => fs[i as int].1));
                }
                let ok = fits_interpreter(&fs[i].1);
                assert(fields_view(fs@)[i as int] == (fs@[i as int].0@, inter_view(fs@[i as int].1)));
                if !ok {
                    assert(!lists_fit(fields_view(fs@)[i as int].1));
                    assert(inter_view(*j) == InterModel::Object(fields_view(fs@)));
                    proof {
                        lemma_object_not_fit(fields_view(fs@), i as int);
                    }
                    return false;
                }
                i = i + 1;
            }
            true
        },
        _ => true,
    }
}

/// Builds the interpreter value for an interchange value.
pub fn from_interchange(j: &Interchange) -> (r: NativeValue)
    requires
        lists_fit(j@),
    ensures
        r@ == from_inter(j@),
    decreases j,
{
    match j {
        Interchange::Null => NativeValue::Nil,
        Interchange::Bool(b) => NativeValue::Boolean(*b),
        Interchange::Int(i) => NativeValue::Integer(*i),
        Interchange::Float(bits) => NativeValue::Number(*bits),
        Interchange::Text(s) => NativeValue::Str(s.clone()),
        Interchange::List(xs) => {
            proof {
                lemma_items_view(xs@);
                assert forall|k: int| 0 <= k < xs@.len() implies lists_fit(
                    #[trigger] inter_view(xs@[k]),
                ) by {
                    assert(lists_fit(items_view(xs@)[k]));
                }
            }
            let mut out: Vec<(NativeValue, NativeValue)> = Vec::new();
            let mut i: usize = 0;
            while i < xs.len()
                invariant
                    i <= xs.len(),
                    *j == Interchange::List(*xs),
                    xs.len() < i64::MAX,
                    items_view(xs@).len() == xs@.len(),
                    forall|k: int| 0 <= k < xs@.len() ==> #[trigger] items_view(xs@)[k] == inter_view(xs@[k]),
                    forall|k: int| 0 <= k < xs@.len() ==> lists_fit(#[trigger] inter_view(xs@[k])),
                    entries_view(out@) == list_entries(items_view(xs@), i as int),
                decreases xs.len() - i,
            {
                assert(lists_fit(items_view(xs@)[i as int]));
                proof {
                    assert(decreases_to!(*xs => xs[i as int]));
                    assert(decreases_to!(*j => j->List_0));
                    assert(decreases_to!(j => xs[i as int]));
                }
                let v = from_interchange(&xs[i]);
                let key = NativeValue::Integer((i + 1) as i64);
                proof {
                    lemma_entries_view_push(out@, (key, v));
                }
                out.push((key, v));
                i = i + 1;
            }
            NativeValue::Table(out)
        },
        Interchange::Object(fs) => {
            proof {
                lemma_fields_view(fs@);
                assert forall|k: int| 0 <= k < fs@.len() implies lists_fit(
                    #[trigger] inter_view(fs@[k].1),
                ) by {
                    assert(lists_fit(fields_view(fs@)[k].1));
                }
            }
            let mut out: Vec<(NativeValue, NativeValue)> = Vec::new();
            let mut i: usize = 0;
            while i < fs.len()
                invariant
                    i <= fs.len(),
                    *j == Interchange::Object(*fs),
                    fields_view(fs@).len() == fs@.len(),
                    forall|k: int|
                        0 <= k < fs@.len() ==> #[trigger] fields_view(fs@)[k] == (
                            fs@[k].0@,
                            inter_view(fs@[k].1),
                        ),
                    forall|k: int| 0 <= k < fs@.len() ==> lists_fit(#[trigger] inter_view(fs@[k].1)),
                    entries_view(out@) == field_entries(fields_view(fs@), i as int),
                decreases fs.len() - i,
            {
                assert(lists_fit(fields_view(fs@)[i as int].1));
                proof {
                    assert(decreases_to!(*fs => fs[i as int]));
                    assert(decreases_to!(*j => j->Object_0));
                    assert(decreases_to!(j => fs[i as int].1));
                }
                let v = from_interchange(&fs[i].1);
                let key = NativeValue::Str(fs[i].0.clone());
                proof {
                    lemma_entries_view_push(out@, (key, v));
                }
                out.push((key, v));
                i = i + 1;
            }
            NativeValue::Table(out)
        },
    }
}

pub open spec fn conv_view(r: Result<Interchange, ConversionError>) -> Result<
    InterModel,
    ConversionError,
> {
    match r {
        Ok(j) => Ok(j@),
        Err(e) => Err(e),
    }
}

proof fn lemma_max_index_bound(es: Seq<(NativeModel, NativeModel)>, n: int)
    requires
        index_keyed(es),
        0 <= n <= es.len(),
    ensures
        max_index(es, n) >= 0,
        forall|i: int| 0 <= i < n ==> (#[trigger] es[i].0)->Integer_0 <= max_index(es, n),
    decreases n,
{
    if n > 0 {
        lemma_max_index_bound(es, n - 1);
        assert(is_index_key(es[n - 1].0));
    }
}

proof fn lemma_list_slots_err(es: Seq<(NativeModel, NativeModel)>, i: int, n: int)
    requires
        0 <= i <= n <= es.len(),
        list_slots(es, i) is Err,
    ensures
        list_slots(es, n) == list_slots(es, i),
    decreases n - i,
{
    if n > i {
        lemma_list_slots_err(es, i, n - 1);
    }
}

proof fn lemma_object_fields_err(es: Seq<(NativeModel, NativeModel)>, i: int, n: int)
    requires
        0 <= i <= n <= es.len(),
        object_fields(es, i) is Err,
    ensures
        object_fields(es, n) == object_fields(es, i),
    decreases n - i,
{
    if n > i {
        lemma_object_fields_err(es, i, n - 1);
    }
}

/// Converts an interpreter value to its interchange form.
pub fn to_interchange(v: &NativeValue) -> (r: Result<Interchange, ConversionError>)
    ensures
        conv_view(r) == to_inter(v@),
    decreases v,
{
    match v {
        NativeValue::Nil => Ok(Interchange::Null),
        NativeValue::Boolean(b) => Ok(Interchange::Bool(*b)),
        NativeValue::Integer(i) => Ok(Interchange::Int(*i)),
        NativeValue::Number(bits) => {
            if (*bits >> 52u64) & 0x7ffu64 != 0x7ffu64 {
                Ok(Interchange::Float(*bits))
            } else {
                Err(ConversionError::NonFiniteNumber)
            }
        },
        NativeValue::Str(s) => Ok(Interchange::Text(s.clone())),
        NativeValue::Opaque(_) => Err(ConversionError::Unsupported),
        NativeValue::Table(es) => {
            let ghost m = entries_view(es@);
            proof {
                lemma_entries_view(es@);
            }
            let mut all_index = true;
            let mut all_text = true;
            let mut max: i64 = 0;
            let mut i: usize = 0;
            while i < es.len()
                invariant
                    i <= es.len(),
                    m == entries_view(es@),
                    m.len() == es@.len(),
                    forall|k: int|
                        0 <= k < es@.len() ==> #[trigger] m[k] == (
                            native_view(es@[k].0),
                            native_view(es@[k].1),
                        ),
                    all_index == (forall|k: int| 0 <= k < i ==> is_index_key(#[trigger] m[k].0)),
                    all_text == (forall|k: int| 0 <= k < i ==> (#[trigger] m[k].0) is Str),
                    all_index ==> max == max_index(m, i as int),
                    max >= 0,
                decreases es.len() - i,
            {
                match &es[i].0 {
                    NativeValue::Integer(k) => {
                        all_text = false;
                        if *k >= 1 {
                            if *k > max {
                                max = *k;
                            }
                        } else {
                            all_index = false;
                        }
                    },
                    NativeValue::Str(_) => {
                        all_index = false;
                    },
                    _ => {
                        all_index = false;
                        all_text = false;
                    },
                }
                proof {
                    assert(m[i as int].0 == native_view(es@[i as int].0));
                }
                i = i + 1;
            }
            if all_index {
                assert(index_keyed(m));
                proof {
                    lemma_max_index_bound(m, m.len() as int);
                }
                let ghost n = max as int;
                let mut items: Vec<Interchange> = Vec::new();
                while (items.len() as u64) < (max as u64)
                    invariant
                        max >= 0,
                        n == max,
                        items.len() <= n,
                        items_view(items@) == Seq::new(items.len() as nat, |t: int| InterModel::Null),
                    decreases n - items.len(),
                {
                    proof {
                        lemma_items_view_push(items@, Interchange::Null);
                    }
                    items.push(Interchange::Null);
                    assert(items_view(items@) =~= Seq::new(items.len() as nat, |t: int| InterModel::Null));
                }
                proof {
                    lemma_items_view(items@);
                }
                let mut i: usize = 0;
                while i < es.len()
                    invariant
                        i <= es.len(),
                        *v == NativeValue::Table(*es),
                        m == entries_view(es@),
                        m.len() == es@.len(),
                        forall|k: int|
                            0 <= k < es@.len() ==> #[trigger] m[k] == (
                                native_view(es@[k].0),
                                native_view(es@[k].1),
                            ),
                        index_keyed(m),
                        items.len() == n,
                        n == max_index(m, m.len() as int),
                        forall|k: int| 0 <= k < m.len() ==> (#[trigger] m[k].0)->Integer_0 <= n,
                        list_slots(m, i as int) == Ok::<Seq<InterModel>, ConversionError>(
                            items_view(items@),
                        ),
                    decreases es.len() - i,
                {
                    proof {
                        assert(decreases_to!(*es => es[i as int]));
                    }
                    let x = to_interchange(&es[i].1);
                    assert(m[i as int].1 == native_view(es@[i as int].1));
                    assert(is_index_key(m[i as int].0));
                    match x {
                        Err(e) => {
                            proof {
                                lemma_list_slots_err(m, i as int + 1, m.len() as int);
                            }
                            return Err(e);
                        },
                        Ok(x) => {
                            let k = match &es[i].0 {
                                NativeValue::Integer(k) => *k,
                                _ => {
                                    proof {
                                        assert(false);
                                    }
                                    1
                                },
                            };
                            proof {
                                lemma_items_view_update(items@, k - 1, x);
                            }
                            items.set((k - 1) as usize, x);
                        },
                    }
                    i = i + 1;
                }
                Ok(Interchange::List(items))
            } else if all_text {
                assert(text_keyed(m));
                let mut fields: Vec<(String, Interchange)> = Vec::new();
                let mut i: usize = 0;
                while i < es.len()
                    invariant
                        i <= es.len(),
                        *v == NativeValue::Table(*es),
                        m == entries_view(es@),
                        m.len() == es@.len(),
                        forall|k: int|
                            0 <= k < es@.len() ==> #[trigger] m[k] == (
                                native_view(es@[k].0),
                                native_view(es@[k].1),
                            ),
                        text_keyed(m),
                        object_fields(m, i as int) == Ok::<
                            Seq<(Seq<char>, InterModel)>,
                            ConversionError,
                        >(fields_view(fields@)),
                    decreases es.len() - i,
                {
                    proof {
                        assert(decreases_to!(*es => es[i as int]));
                    }
                    let x = to_interchange(&es[i].1);
                    assert(m[i as int].1 == native_view(es@[i as int].1));
                    assert(m[i as int].0 is Str);
                    match x {
                        Err(e) => {
                            proof {
                                lemma_object_fields_err(m, i as int + 1, m.len() as int);
                            }
                            return Err(e);
                        },
                        Ok(x) => {
                            let key = match &es[i].0 {
                                NativeValue::Str(s) => s.clone(),
                                _ => {
                                    proof {
                                        assert(false);
                                    }
                                    String::new()
                                },
                            };
                            proof {
                                lemma_fields_view_push(fields@, (key, x));
                            }
                            fields.push((key, x));
                        },
                    }
                    i = i + 1;
                }
                Ok(Interchange::Object(fields))
            } else {
                Err(ConversionError::NonStringKey)
            }
        },
    }
}

/// A native value of one of the shapes the interchange form holds exactly:
/// nil, a boolean, an integer, a finite number, a string, a table keyed
/// 1, 2, ... in order, or a table keyed by strings, with plain values inside.
pub open spec fn is_plain(x: NativeModel) -> bool
    decreases x,
{
    match x {
        NativeModel::Number(bits) => is_finite_bits(bits),
        NativeModel::Opaque(_) => false,
        NativeModel::Table(es) => ((forall|i: int|
            0 <= i < es.len() ==> (#[trigger] es[i]).0 == NativeModel::Integer(i + 1))
            || text_keyed(es)) && (forall|i: int| 0 <= i < es.len() ==> is_plain(#[trigger] es[i].1)),
        _ => true,
    }
}

proof fn lemma_max_index_sequential(es: Seq<(NativeModel, NativeModel)>, n: int)
    requires
        0 <= n <= es.len(),
        forall|i: int| 0 <= i < es.len() ==> (#[trigger] es[i]).0 == NativeModel::Integer(i + 1),
    ensures
        max_index(es, n) == n,
    decreases n,
{
    if n > 0 {
        lemma_max_index_sequential(es, n - 1);
        assert(es[n - 1].0 == NativeModel::Integer(n));
    }
}

proof fn lemma_list_slots_sequential(es: Seq<(NativeModel, NativeModel)>, n: int)
    requires
        0 <= n <= es.len(),
        forall|i: int| 0 <= i < es.len() ==> (#[trigger] es[i]).0 == NativeModel::Integer(i + 1),
        forall|i: int| 0 <= i < es.len() ==> (#[trigger] to_inter(es[i].1)) is Ok,
    ensures
        list_slots(es, n) == Ok::<Seq<InterModel>, ConversionError>(
            Seq::new(
                es.len(),
                |j: int|
                    if j < n {
                        to_inter(es[j].1)->Ok_0
                    } else {
                        InterModel::Null
                    },
            ),
        ),
    decreases n,
{
    lemma_max_index_sequential(es, es.len() as int);
    if n > 0 {
        lemma_list_slots_sequential(es, n - 1);
        assert(es[n - 1].0 == NativeModel::Integer(n));
        assert(to_inter(es[n - 1].1) is Ok);
        let prev = Seq::new(
            es.len(),
            |j: int|
                if j < n - 1 {
                    to_inter(es[j].1)->Ok_0
                } else {
                    InterModel::Null
                },
        );
        assert(prev.update(n - 1, to_inter(es[n - 1].1)->Ok_0) =~= Seq::new(
            es.len(),
            |j: int|
                if j < n {
                    to_inter(es[j].1)->Ok_0
                } else {
                    InterModel::Null
                },
        ));
    } else {
        assert(Seq::new(max_index(es, es.len() as int) as nat, |j: int| InterModel::Null) =~= Seq::new(
            es.len(),
            |j: int|
                if j < n {
                    to_inter(es[j].1)->Ok_0
                } else {
                    InterModel::Null
                },
        ));
    }
}

proof fn lemma_object_fields_all(es: Seq<(NativeModel, NativeModel)>, n: int)
    requires
        0 <= n <= es.len(),
        forall|i: int| 0 <= i < es.len() ==> (#[trigger] to_inter(es[i].1)) is Ok,
    ensures
        object_fields(es, n) == Ok::<Seq<(Seq<char>, InterModel)>, ConversionError>(
            Seq::new(n as nat, |j: int| (es[j].0->Str_0, to_inter(es[j].1)->Ok_0)),
        ),
    decreases n,
{
    if n > 0 {
        lemma_object_fields_all(es, n - 1);
        assert(to_inter(es[n - 1].1) is Ok);
        assert(Seq::new((n - 1) as nat, |j: int| (es[j].0->Str_0, to_inter(es[j].1)->Ok_0)).push(
            (es[n - 1].0->Str_0, to_inter(es[n - 1].1)->Ok_0),
        ) =~= Seq::new(n as nat, |j: int| (es[j].0->Str_0, to_inter(es[j].1)->Ok_0)));
    } else {
        assert(Seq::<(Seq<char>, InterModel)>::empty() =~= Seq::new(
            n as nat,
            |j: int| (es[j].0->Str_0, to_inter(es[j].1)->Ok_0),
        ));
    }
}

proof fn lemma_list_entries(xs: Seq<InterModel>, n: int)
    requires
        0 <= n <= xs.len(),
    ensures
        list_entries(xs, n) == Seq::new(
            n as nat,
            |i: int| (NativeModel::Integer(i + 1), from_inter(xs[i])),
        ),
    decreases n,
{
    if n > 0 {
        lemma_list_entries(xs, n - 1);
    }
    assert(list_entries(xs, n) =~= Seq::new(
        n as nat,
        |i: int| (NativeModel::Integer(i + 1), from_inter(xs[i])),
    ));
}

proof fn lemma_field_entries(fs: Seq<(Seq<char>, InterModel)>, n: int)
    requires
        0 <= n <= fs.len(),
    ensures
        field_entries(fs, n) == Seq::new(
            n as nat,
            |i: int| (NativeModel::Str(fs[i].0), from_inter(fs[i].1)),
        ),
    decreases n,
{
    if n > 0 {
        lemma_field_entries(fs, n - 1);
    }
    assert(field_entries(fs, n) =~= Seq::new(
        n as nat,
        |i: int| (NativeModel::Str(fs[i].0), from_inter(fs[i].1)),
    ));
}

/// Round trip: a plain native value survives conversion to interchange form
/// and back unchanged.
pub proof fn lemma_round_trip(x: NativeModel)
    requires
        is_plain(x),
    ensures
        to_inter(x) is Ok,
        from_inter(to_inter(x)->Ok_0) == x,
    decreases x,
{
    if let NativeModel::Table(es) = x {
        assert forall|i: int| 0 <= i < es.len() implies #[trigger] to_inter(es[i].1) is Ok
            && from_inter(to_inter(es[i].1)->Ok_0) == es[i].1 by {
            assert(is_plain(es[i].1));
            lemma_round_trip(es[i].1);
        }
        if forall|i: int| 0 <= i < es.len() ==> (#[trigger] es[i]).0 == NativeModel::Integer(i + 1) {
            assert(index_keyed(es));
            lemma_list_slots_sequential(es, es.len() as int);
            let items = Seq::new(
                es.len(),
                |j: int|
                    if j < es.len() {
                        to_inter(es[j].1)->Ok_0
                    } else {
                        InterModel::Null
                    },
            );
            lemma_list_entries(items, items.len() as int);
            assert(list_entries(items, items.len() as int) =~= es);
        } else {
            if es.len() > 0 {
                assert(!is_index_key(es[0].0));
            }
            assert(!index_keyed(es));
            lemma_object_fields_all(es, es.len() as int);
            let fields = Seq::new(es.len(), |j: int| (es[j].0->Str_0, to_inter(es[j].1)->Ok_0));
            lemma_field_entries(fields, fields.len() as int);
            assert forall|i: int| 0 <= i < es.len() implies field_entries(
                fields,
                fields.len() as int,
            )[i] == es[i] by {
                assert(es[i].0 is Str);
            }
            assert(field_entries(fields, fields.len() as int) =~= es);
        }
    }
}

/// An interchange value of the kind conversion produces: finite numbers,
/// and no empty mapping (an empty table converts to an empty list).
pub open spec fn is_encoded(j: InterModel) -> bool
    decreases j,
{
    match j {
        InterModel::Float(bits) => is_finite_bits(bits),
        InterModel::List(xs) => forall|i: int| 0 <= i < xs.len() ==> is_encoded(#[trigger] xs[i]),
        InterModel::Object(fs) => fs.len() > 0 && forall|i: int|
            0 <= i < fs.len() ==> is_encoded(#[trigger] fs[i].1),
        _ => true,
    }
}

proof fn lemma_encoded(v: NativeModel)
    requires
        to_inter(v) is Ok,
    ensures
        is_encoded(to_inter(v)->Ok_0),
    decreases v, 0int,
{
    if let NativeModel::Table(es) = v {
        if index_keyed(es) {
            lemma_list_slots_encoded(es, es.len() as int);
        } else {
            lemma_object_fields_encoded(es, es.len() as int);
            assert(es.len() > 0);
        }
    }
}

proof fn lemma_list_slots_encoded(es: Seq<(NativeModel, NativeModel)>, n: int)
    requires
        list_slots(es, n) is Ok,
        index_keyed(es),
    ensures
        list_slots(es, n)->Ok_0.len() == max_index(es, es.len() as int),
        forall|i: int|
            0 <= i < list_slots(es, n)->Ok_0.len() ==> is_encoded(#[trigger] list_slots(es, n)->Ok_0[i]),
    decreases es, n,
{
    if !(n <= 0 || n > es.len()) {
        lemma_list_slots_encoded(es, n - 1);
        lemma_encoded(es[n - 1].1);
        lemma_max_index_bound(es, es.len() as int);
        assert(is_index_key(es[n - 1].0));
        let items = list_slots(es, n - 1)->Ok_0;
        let x = to_inter(es[n - 1].1)->Ok_0;
        let k = es[n - 1].0->Integer_0 - 1;
        assert forall|i: int| 0 <= i < items.update(k, x).len() implies is_encoded(
            #[trigger] items.update(k, x)[i],
        ) by {
            if i != k {
                assert(items.update(k, x)[i] == items[i]);
            }
        }
    } else {
        let items = Seq::new(max_index(es, es.len() as int) as nat, |j: int| InterModel::Null);
        assert forall|i: int| 0 <= i < items.len() implies is_encoded(#[trigger] items[i]) by {}
    }
}

proof fn lemma_object_fields_encoded(es: Seq<(NativeModel, NativeModel)>, n: int)
    requires
        object_fields(es, n) is Ok,
    ensures
        0 <= n <= es.len() ==> object_fields(es, n)->Ok_0.len() == n,
        forall|i: int|
            0 <= i < object_fields(es, n)->Ok_0.len() ==> is_encoded(
                #[trigger] object_fields(es, n)->Ok_0[i].1,
            ),
    decreases es, n,
{
    if !(n <= 0 || n > es.len()) {
        lemma_object_fields_encoded(es, n - 1);
        lemma_encoded(es[n - 1].1);
    }
}

/// Converting back is exact on what conversion produces: for every value
/// `j` in that form, the interpreter value built from `j` converts to `j`.
pub proof fn lemma_encoded_round_trip(j: InterModel)
    requires
        is_encoded(j),
    ensures
        to_inter(from_inter(j)) == Ok::<InterModel, ConversionError>(j),
    decreases j,
{
    match j {
        InterModel::List(xs) => {
            let es = list_entries(xs, xs.len() as int);
            lemma_list_entries(xs, xs.len() as int);
            assert forall|i: int| 0 <= i < es.len() implies #[trigger] to_inter(es[i].1) == Ok::<
                InterModel,
                ConversionError,
            >(xs[i]) by {
                lemma_encoded_round_trip(xs[i]);
            }
            assert(index_keyed(es));
            lemma_list_slots_sequential(es, es.len() as int);
            assert(Seq::new(
                es.len(),
                |k: int|
                    if k < es.len() {
                        to_inter(es[k].1)->Ok_0
                    } else {
                        InterModel::Null
                    },
            ) =~= xs);
        },
        InterModel::Object(fs) => {
            let es = field_entries(fs, fs.len() as int);
            lemma_field_entries(fs, fs.len() as int);
            assert forall|i: int| 0 <= i < es.len() implies #[trigger] to_inter(es[i].1) == Ok::<
                InterModel,
                ConversionError,
            >(fs[i].1) by {
                lemma_encoded_round_trip(fs[i].1);
            }
            assert(!is_index_key(es[0].0));
            assert(text_keyed(es));
            lemma_object_fields_all(es, es.len() as int);
            assert(Seq::new(es.len(), |k: int| (es[k].0->Str_0, to_inter(es[k].1)->Ok_0)) =~= fs);
        },
        _ => {},
    }
}

/// Conversion only produces values of the encoded form.
pub proof fn lemma_conversion_encoded(v: NativeModel)
    requires
        to_inter(v) is Ok,
    ensures
        is_encoded(to_inter(v)->Ok_0),
{
    lemma_encoded(v);
}

} // verus!
