//! Values that atoms of an expression hold.
use vstd::prelude::*;
use crate::text::{json_string, int_text, push_char, write_json_string, write_int};
use vstd::string::StringExecFns;

verus! {

/// A value of the BAML language, without metadata.
pub enum BamlValue {
    String(String),
    Int(i64),
    Bool(bool),
    /// Entries in insertion order.
    Dict(Vec<(String, BamlValue)>),
    List(Vec<BamlValue>),
    /// Enum name and variant.
    Enum(String, String),
    /// Class name and fields in declaration order.
    Class(String, Vec<(String, BamlValue)>),
    Null,
}

/// The mathematical model of a [`BamlValue`].
pub enum ValueModel {
    String(Seq<char>),
    Int(int),
    Bool(bool),
    Dict(Seq<(Seq<char>, ValueModel)>),
    List(Seq<ValueModel>),
    Enum(Seq<char>, Seq<char>),
    Class(Seq<char>, Seq<(Seq<char>, ValueModel)>),
    Null,
}

pub open spec fn values_model(s: Seq<BamlValue>) -> Seq<ValueModel>
    decreases s,
{
    if s.len() == 0 {
        seq![]
    } else {
        seq![value_model(s[0])] + values_model(s.drop_first())
    }
}

pub open spec fn entries_model(s: Seq<(String, BamlValue)>) -> Seq<(Seq<char>, ValueModel)>
    decreases s,
{
    if s.len() == 0 {
        seq![]
    } else {
        seq![(s[0].0@, value_model(s[0].1))] + entries_model(s.drop_first())
    }
}

pub open spec fn value_model(v: BamlValue) -> ValueModel
    decreases v,
{
    match v {
        BamlValue::String(s) => ValueModel::String(s@),
        BamlValue::Int(i) => ValueModel::Int(i as int),
        BamlValue::Bool(b) => ValueModel::Bool(b),
        BamlValue::Dict(m) => ValueModel::Dict(entries_model(m@)),
        BamlValue::List(l) => ValueModel::List(values_model(l@)),
        BamlValue::Enum(n, x) => ValueModel::Enum(n@, x@),
        BamlValue::Class(n, f) => ValueModel::Class(n@, entries_model(f@)),
        BamlValue::Null => ValueModel::Null,
    }
}

impl View for BamlValue {
    type V = ValueModel;

    open spec fn view(&self) -> ValueModel {
        value_model(*self)
    }
}

/// The models of a sequence of values, element by element.
pub proof fn lemma_values_model(s: Seq<BamlValue>)
    ensures
        values_model(s).len() == s.len(),
        forall|i: int| 0 <= i < s.len() ==> #[trigger] values_model(s)[i] == value_model(s[i]),
    decreases s.len(),
{
    if s.len() > 0 {
        lemma_values_model(s.drop_first());
        assert forall|i: int| 0 <= i < s.len() implies #[trigger] values_model(s)[i] == value_model(s[i]) by {
            if i > 0 {
                assert(s.drop_first()[i - 1] == s[i]);
            }
        }
    }
}

/// The models of a sequence of entries, entry by entry.
pub proof fn lemma_entries_model(s: Seq<(String, BamlValue)>)
    ensures
        entries_model(s).len() == s.len(),
        forall|i: int| 0 <= i < s.len() ==> #[trigger] entries_model(s)[i] == (s[i].0@, value_model(s[i].1)),
    decreases s.len(),
{
    if s.len() > 0 {
        lemma_entries_model(s.drop_first());
        assert forall|i: int| 0 <= i < s.len() implies #[trigger] entries_model(s)[i] == (s[i].0@, value_model(s[i].1)) by {
            if i > 0 {
                assert(s.drop_first()[i - 1] == s[i]);
            }
        }
    }
}

/// The JSON text of a value: strings and enum variants as string literals, integers in
/// decimal, `true`, `false` and `null`, lists in square brackets and maps and class
/// instances as objects whose members keep their order, all without spaces.
pub open spec fn value_text(v: ValueModel) -> Seq<char>
    decreases v,
{
    match v {
        ValueModel::String(s) => json_string(s),
        ValueModel::Int(i) => int_text(i),
        ValueModel::Bool(b) => if b { seq!['t', 'r', 'u', 'e'] } else { seq!['f', 'a', 'l', 's', 'e'] },
        ValueModel::Dict(es) => seq!['{'] + members_text(es) + seq!['}'],
        ValueModel::List(vs) => seq!['['] + elements_text(vs) + seq![']'],
        ValueModel::Enum(_, x) => json_string(x),
        ValueModel::Class(_, fs) => seq!['{'] + members_text(fs) + seq!['}'],
        ValueModel::Null => seq!['n', 'u', 'l', 'l'],
    }
}

/// Texts of the values, separated by commas.
pub open spec fn elements_text(vs: Seq<ValueModel>) -> Seq<char>
    decreases vs,
{
    if vs.len() == 0 {
        seq![]
    } else if vs.len() == 1 {
        value_text(vs[0])
    } else {
        elements_text(vs.drop_last()) + seq![','] + value_text(vs.last())
    }
}

/// `"key":value` for each member, separated by commas.
pub open spec fn members_text(es: Seq<(Seq<char>, ValueModel)>) -> Seq<char>
    decreases es,
{
    if es.len() == 0 {
        seq![]
    } else if es.len() == 1 {
        json_string(es[0].0) + seq![':'] + value_text(es[0].1)
    } else {
        members_text(es.drop_last()) + seq![','] + json_string(es.last().0) + seq![':'] + value_text(es.last().1)
    }
}

fn write_elements(items: &Vec<BamlValue>, out: &mut String)
    ensures
        final(out)@ == old(out)@ + elements_text(values_model(items@)),
    decreases items, 0nat,
{
    let ghost start = out@;
    let ghost vm = values_model(items@);
    proof {
        lemma_values_model(items@);
    }
    let n = items.len();
    let mut i: usize = 0;
    while i < n
        invariant
            n == items@.len(),
            vm == values_model(items@),
            vm.len() == n,
            forall|j: int| 0 <= j < n ==> #[trigger] vm[j] == value_model(items@[j]),
            0 <= i <= n,
            out@ == start + elements_text(vm.take(i as int)),
        decreases n - i,
    {
        if i > 0 {
            push_char(out, ',');
        }
        proof {
            assert(decreases_to!(items => items@[i as int]));
        }
        write_value(&items[i], out);
        proof {
            assert(vm.take(i + 1).drop_last() =~= vm.take(i as int));
            assert(vm.take(i + 1).last() == vm[i as int]);
            if i == 0 {
                assert(elements_text(vm.take(0)) =~= Seq::<char>::empty());
            }
            assert(out@ =~= start + elements_text(vm.take(i + 1)));
        }
        i = i + 1;
    }
    proof {
        assert(vm.take(n as int) =~= vm);
    }
}

fn write_members(entries: &Vec<(String, BamlValue)>, out: &mut String)
    ensures
        final(out)@ == old(out)@ + members_text(entries_model(entries@)),
    decreases entries, 0nat,
{
    let ghost start = out@;
    let ghost em = entries_model(entries@);
    proof {
        lemma_entries_model(entries@);
    }
    let n = entries.len();
    let mut i: usize = 0;
    while i < n
        invariant
            n == entries@.len(),
            em == entries_model(entries@),
            em.len() == n,
            forall|j: int| 0 <= j < n ==> #[trigger] em[j] == (entries@[j].0@, value_model(entries@[j].1)),
            0 <= i <= n,
            out@ == start + members_text(em.take(i as int)),
        decreases n - i,
    {
        if i > 0 {
            push_char(out, ',');
        }
        let entry = &entries[i];
        write_json_string(entry.0.as_str(), out);
        push_char(out, ':');
        proof {
            assert(decreases_to!(entries => entries@[i as int].1));
        }
        write_value(&entry.1, out);
        proof {
            assert(em.take(i + 1).drop_last() =~= em.take(i as int));
            assert(em.take(i + 1).last() == em[i as int]);
            if i == 0 {
                assert(members_text(em.take(0)) =~= Seq::<char>::empty());
            }
            assert(out@ =~= start + members_text(em.take(i + 1)));
        }
        i = i + 1;
    }
    proof {
        assert(em.take(n as int) =~= em);
    }
}

/// Appends the JSON text of `v` to `out`.
pub fn write_value(v: &BamlValue, out: &mut String)
    ensures
        final(out)@ == old(out)@ + value_text(v@),
    decreases v, 1nat,
{
    let ghost start = out@;
    match v {
        BamlValue::String(s) => {
            write_json_string(s.as_str(), out);
        },
        BamlValue::Int(i) => {
            write_int(*i, out);
        },
        BamlValue::Bool(b) => {
            if *b {
                out.append("true");
            } else {
                out.append("false");
            }
            proof {
                reveal_strlit("true");
                reveal_strlit("false");
                assert(out@ =~= start + value_text(v@));
            }
        },
        BamlValue::Dict(es) => {
            push_char(out, '{');
            write_members(es, out);
            push_char(out, '}');
            assert(out@ =~= start + value_text(v@));
        },
        BamlValue::List(items) => {
            push_char(out, '[');
            write_elements(items, out);
            push_char(out, ']');
            assert(out@ =~= start + value_text(v@));
        },
        BamlValue::Enum(_, x) => {
            write_json_string(x.as_str(), out);
        },
        BamlValue::Class(_, fs) => {
            push_char(out, '{');
            write_members(fs, out);
            push_char(out, '}');
            assert(out@ =~= start + value_text(v@));
        },
        BamlValue::Null => {
            out.append("null");
            proof {
                reveal_strlit("null");
                assert(out@ =~= start + value_text(v@));
            }
        },
    }
}

fn clone_elements(items: &Vec<BamlValue>) -> (r: Vec<BamlValue>)
    ensures
        values_model(r@) == values_model(items@),
    decreases items, 0nat,
{
    proof {
        lemma_values_model(items@);
    }
    let mut r: Vec<BamlValue> = Vec::new();
    let n = items.len();
    let mut i: usize = 0;
    while i < n
        invariant
            n == items@.len(),
            0 <= i <= n,
            r@.len() == i,
            forall|j: int| 0 <= j < i ==> #[trigger] value_model(r@[j]) == value_model(items@[j]),
        decreases n - i,
    {
        proof {
            assert(decreases_to!(items => items@[i as int]));
        }
        let c = items[i].clone();
        r.push(c);
        i = i + 1;
    }
    proof {
        lemma_values_model(r@);
        assert(values_model(r@) =~= values_model(items@));
    }
    r
}

fn clone_entries(entries: &Vec<(String, BamlValue)>) -> (r: Vec<(String, BamlValue)>)
    ensures
        entries_model(r@) == entries_model(entries@),
    decreases entries, 0nat,
{
    proof {
        lemma_entries_model(entries@);
    }
    let mut r: Vec<(String, BamlValue)> = Vec::new();
    let n = entries.len();
    let mut i: usize = 0;
    while i < n
        invariant
            n == entries@.len(),
            0 <= i <= n,
            r@.len() == i,
            forall|j: int| 0 <= j < i ==> #[trigger] r@[j].0@ == entries@[j].0@ && value_model(r@[j].1)
                == value_model(entries@[j].1),
        decreases n - i,
    {
        proof {
            assert(decreases_to!(entries => entries@[i as int].1));
        }
        let k = entries[i].0.clone();
        let c = entries[i].1.clone();
        r.push((k, c));
        i = i + 1;
    }
    proof {
        lemma_entries_model(r@);
        assert(entries_model(r@) =~= entries_model(entries@));
    }
    r
}

impl Clone for BamlValue {
    fn clone(&self) -> (r: Self)
        ensures
            r@ == self@,
        decreases self, 1nat,
    {
        match self {
            BamlValue::String(s) => BamlValue::String(s.clone()),
            BamlValue::Int(i) => BamlValue::Int(*i),
            BamlValue::Bool(b) => BamlValue::Bool(*b),
            BamlValue::Dict(es) => BamlValue::Dict(clone_entries(es)),
            BamlValue::List(items) => BamlValue::List(clone_elements(items)),
            BamlValue::Enum(n, x) => BamlValue::Enum(n.clone(), x.clone()),
            BamlValue::Class(n, fs) => BamlValue::Class(n.clone(), clone_entries(fs)),
            BamlValue::Null => BamlValue::Null,
        }
    }
}

/// A value together with metadata of the caller's choosing.
pub struct BamlValueWithMeta<U> {
    pub value: BamlValue,
    pub meta: U,
}

impl<U> View for BamlValueWithMeta<U> {
    type V = (ValueModel, U);

    open spec fn view(&self) -> (ValueModel, U) {
        (self.value@, self.meta)
    }
}

impl<U: Clone> Clone for BamlValueWithMeta<U> {
    fn clone(&self) -> (r: Self)
        ensures
            r.value@ == self.value@,
            cloned(self.meta, r.meta),
    {
        BamlValueWithMeta { value: self.value.clone(), meta: self.meta.clone() }
    }
}

impl<U> BamlValueWithMeta<U> {
    /// The value with its metadata dropped.
    pub fn value(self) -> (r: BamlValue)
        ensures
            r@ == self.value@,
    {
        self.value
    }
}

fn elements_equal(a: &Vec<BamlValue>, b: &Vec<BamlValue>) -> (r: bool)
    ensures
        r == (values_model(a@) == values_model(b@)),
    decreases a, 0nat,
{
    proof {
        lemma_values_model(a@);
        lemma_values_model(b@);
    }
    let n = a.len();
    if n != b.len() {
        return false;
    }
    let mut i: usize = 0;
    while i < n
        invariant
            n == a@.len(),
            n == b@.len(),
            0 <= i <= n,
            values_model(a@).len() == n,
            values_model(b@).len() == n,
            forall|j: int| 0 <= j < n ==> #[trigger] values_model(a@)[j] == value_model(a@[j]),
            forall|j: int| 0 <= j < n ==> #[trigger] values_model(b@)[j] == value_model(b@[j]),
            forall|j: int| 0 <= j < i ==> #[trigger] value_model(a@[j]) == value_model(b@[j]),
        decreases n - i,
    {
        proof {
            assert(decreases_to!(a => a@[i as int]));
        }
        if !a[i].equals(&b[i]) {
            proof {
                assert(values_model(a@)[i as int] != values_model(b@)[i as int]);
            }
            return false;
        }
        i = i + 1;
    }
    proof {
        assert(values_model(a@) =~= values_model(b@));
    }
    true
}

fn members_equal(a: &Vec<(String, BamlValue)>, b: &Vec<(String, BamlValue)>) -> (r: bool)
    ensures
        r == (entries_model(a@) == entries_model(b@)),
    decreases a, 0nat,
{
    proof {
        lemma_entries_model(a@);
        lemma_entries_model(b@);
    }
    let n = a.len();
    if n != b.len() {
        return false;
    }
    let mut i: usize = 0;
    while i < n
        invariant
            n == a@.len(),
            n == b@.len(),
            0 <= i <= n,
            entries_model(a@).len() == n,
            entries_model(b@).len() == n,
            forall|j: int| 0 <= j < n ==> #[trigger] entries_model(a@)[j] == (a@[j].0@, value_model(a@[j].1)),
            forall|j: int| 0 <= j < n ==> #[trigger] entries_model(b@)[j] == (b@[j].0@, value_model(b@[j].1)),
            forall|j: int| 0 <= j < i ==> #[trigger] entries_model(a@)[j] == entries_model(b@)[j],
        decreases n - i,
    {
        proof {
            assert(decreases_to!(a => a@[i as int].1));
        }
        if a[i].0 != b[i].0 || !a[i].1.equals(&b[i].1) {
            proof {
                assert(entries_model(a@)[i as int] != entries_model(b@)[i as int]);
            }
            return false;
        }
        i = i + 1;
    }
    proof {
        assert(entries_model(a@) =~= entries_model(b@));
    }
    true
}

impl BamlValue {
    /// Whether two values are equal.
    pub fn equals(&self, other: &BamlValue) -> (r: bool)
        ensures
            r == (self@ == other@),
        decreases self, 1nat,
    {
        match (self, other) {
            (BamlValue::String(a), BamlValue::String(b)) => *a == *b,
            (BamlValue::Int(a), BamlValue::Int(b)) => *a == *b,
            (BamlValue::Bool(a), BamlValue::Bool(b)) => *a == *b,
            (BamlValue::Dict(a), BamlValue::Dict(b)) => members_equal(a, b),
            (BamlValue::List(a), BamlValue::List(b)) => elements_equal(a, b),
            (BamlValue::Enum(n1, x1), BamlValue::Enum(n2, x2)) => *n1 == *n2 && *x1 == *x2,
            (BamlValue::Class(n1, f1), BamlValue::Class(n2, f2)) => *n1 == *n2 && members_equal(f1, f2),
            (BamlValue::Null, BamlValue::Null) => true,
            _ => false,
        }
    }

    /// The JSON text of the value (what its `Display` shows).
    pub fn to_string(&self) -> (r: String)
        ensures
            r@ == value_text(self@),
    {
        let mut out = String::new();
        write_value(self, &mut out);
        proof {
            assert(out@ =~= value_text(self@));
        }
        out
    }
}

} // verus!
