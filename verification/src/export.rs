//! The columnar export's schema logic: dynamic column typing with a meet
//! operation, name sanitization, entry slugs, and the SQL text of types.

use vstd::prelude::*;

use crate::data::FieldV;
use crate::map::MapKey;
use crate::timestamp::Interval;

verus! {

broadcast use vstd::seq::group_seq_axioms;

/// The type of an exported column. `Unknown` is the bottom of the lattice;
/// `Vec` nests.
#[derive(Debug)]
pub enum FieldType {
    I64,
    U64,
    String,
    Interval,
    ItemLink,
    Vec(Box<FieldType>),
    Empty,
    Unknown,
}

impl Clone for FieldType {
    fn clone(&self) -> (r: FieldType)
        ensures
            r == *self,
        decreases self,
    {
        match self {
            FieldType::I64 => FieldType::I64,
            FieldType::U64 => FieldType::U64,
            FieldType::String => FieldType::String,
            FieldType::Interval => FieldType::Interval,
            FieldType::ItemLink => FieldType::ItemLink,
            FieldType::Vec(v) => FieldType::Vec(Box::new((**v).clone())),
            FieldType::Empty => FieldType::Empty,
            FieldType::Unknown => FieldType::Unknown,
        }
    }
}

impl PartialEq for FieldType {
    fn eq(&self, other: &FieldType) -> (r: bool)
        decreases self,
    {
        match (self, other) {
            (FieldType::I64, FieldType::I64) => true,
            (FieldType::U64, FieldType::U64) => true,
            (FieldType::String, FieldType::String) => true,
            (FieldType::Interval, FieldType::Interval) => true,
            (FieldType::ItemLink, FieldType::ItemLink) => true,
            (FieldType::Vec(a), FieldType::Vec(b)) => (**a).eq(&**b),
            (FieldType::Empty, FieldType::Empty) => true,
            (FieldType::Unknown, FieldType::Unknown) => true,
            _ => false,
        }
    }
}

impl Eq for FieldType {}

impl vstd::std_specs::cmp::PartialEqSpecImpl for FieldType {
    open spec fn obeys_eq_spec() -> bool {
        true
    }

    open spec fn eq_spec(&self, other: &FieldType) -> bool {
        *self == *other
    }
}

/// Whether two column types can meet: equal kinds always can, `Unknown`
/// meets everything, and `U64`, `String` and `ItemLink` promote to each
/// other; nested `Vec` types meet elementwise.
pub open spec fn compatible(a: FieldType, b: FieldType) -> bool
    decreases a,
{
    match (a, b) {
        (FieldType::Unknown, _) => true,
        (_, FieldType::Unknown) => true,
        (FieldType::I64, FieldType::I64) => true,
        (FieldType::U64, FieldType::U64) => true,
        (FieldType::String, FieldType::String) => true,
        (FieldType::Interval, FieldType::Interval) => true,
        (FieldType::ItemLink, FieldType::ItemLink) => true,
        (FieldType::Empty, FieldType::Empty) => true,
        (FieldType::Vec(x), FieldType::Vec(y)) => compatible(*x, *y),
        (FieldType::U64, FieldType::String) => true,
        (FieldType::String, FieldType::U64) => true,
        (FieldType::U64, FieldType::ItemLink) => true,
        (FieldType::ItemLink, FieldType::U64) => true,
        (FieldType::String, FieldType::ItemLink) => true,
        (FieldType::ItemLink, FieldType::String) => true,
        _ => false,
    }
}

/// The meet of two compatible column types: the least type both promote to.
pub open spec fn spec_meet(a: FieldType, b: FieldType) -> FieldType
    recommends
        compatible(a, b),
    decreases a,
{
    match (a, b) {
        (FieldType::Unknown, x) => x,
        (x, FieldType::Unknown) => x,
        (FieldType::Vec(x), FieldType::Vec(y)) => FieldType::Vec(Box::new(spec_meet(*x, *y))),
        (FieldType::U64, FieldType::String) => FieldType::String,
        (FieldType::String, FieldType::U64) => FieldType::String,
        (FieldType::U64, FieldType::ItemLink) => FieldType::ItemLink,
        (FieldType::ItemLink, FieldType::U64) => FieldType::ItemLink,
        (FieldType::String, FieldType::ItemLink) => FieldType::ItemLink,
        (FieldType::ItemLink, FieldType::String) => FieldType::ItemLink,
        (x, _) => x,
    }
}

/// The meet is idempotent: every type is compatible with itself and meets to
/// itself.
pub proof fn lemma_meet_idempotent(t: FieldType)
    ensures
        compatible(t, t),
        spec_meet(t, t) == t,
    decreases t,
{
    match t {
        FieldType::Vec(x) => {
            lemma_meet_idempotent(*x);
        },
        _ => {},
    }
}

/// The meet is commutative on compatible pairs.
pub proof fn lemma_meet_commutative(a: FieldType, b: FieldType)
    requires
        compatible(a, b),
    ensures
        compatible(b, a),
        spec_meet(a, b) == spec_meet(b, a),
    decreases a,
{
    match (a, b) {
        (FieldType::Vec(x), FieldType::Vec(y)) => {
            lemma_meet_commutative(*x, *y);
        },
        _ => {},
    }
}

/// The meet is associative on compatible pairs: when `(a ∧ b) ∧ c` is
/// defined, so is `a ∧ (b ∧ c)`, and they are equal.
pub proof fn lemma_meet_associative(a: FieldType, b: FieldType, c: FieldType)
    requires
        compatible(a, b),
        compatible(spec_meet(a, b), c),
    ensures
        compatible(b, c),
        compatible(a, spec_meet(b, c)),
        spec_meet(spec_meet(a, b), c) == spec_meet(a, spec_meet(b, c)),
    decreases a,
{
    match (a, b, c) {
        (FieldType::Vec(x), FieldType::Vec(y), FieldType::Vec(z)) => {
            lemma_meet_associative(*x, *y, *z);
        },
        _ => {},
    }
}

impl FieldType {
    /// Whether the two types can meet; the executable [`compatible`].
    pub fn is_compatible(&self, b: &FieldType) -> (r: bool)
        ensures
            r == compatible(*self, *b),
        decreases self,
    {
        match (self, b) {
            (FieldType::Unknown, _) => true,
            (_, FieldType::Unknown) => true,
            (FieldType::I64, FieldType::I64) => true,
            (FieldType::U64, FieldType::U64) => true,
            (FieldType::String, FieldType::String) => true,
            (FieldType::Interval, FieldType::Interval) => true,
            (FieldType::ItemLink, FieldType::ItemLink) => true,
            (FieldType::Empty, FieldType::Empty) => true,
            (FieldType::Vec(x), FieldType::Vec(y)) => (**x).is_compatible(&**y),
            (FieldType::U64, FieldType::String) => true,
            (FieldType::String, FieldType::U64) => true,
            (FieldType::U64, FieldType::ItemLink) => true,
            (FieldType::ItemLink, FieldType::U64) => true,
            (FieldType::String, FieldType::ItemLink) => true,
            (FieldType::ItemLink, FieldType::String) => true,
            _ => false,
        }
    }

    /// The meet of two compatible types. An incompatible pair is a schema
    /// error; callers that cannot rule it out use [`FieldType::try_meet`].
    pub fn meet(&self, b: &FieldType) -> (r: FieldType)
        requires
            compatible(*self, *b),
        ensures
            r == spec_meet(*self, *b),
        decreases self,
    {
        match (self, b) {
            (FieldType::Unknown, x) => x.clone(),
            (x, FieldType::Unknown) => x.clone(),
            (FieldType::Vec(x), FieldType::Vec(y)) => FieldType::Vec(
                Box::new((**x).meet(&**y)),
            ),
            (FieldType::U64, FieldType::String) => FieldType::String,
            (FieldType::String, FieldType::U64) => FieldType::String,
            (FieldType::U64, FieldType::ItemLink) => FieldType::ItemLink,
            (FieldType::ItemLink, FieldType::U64) => FieldType::ItemLink,
            (FieldType::String, FieldType::ItemLink) => FieldType::ItemLink,
            (FieldType::ItemLink, FieldType::String) => FieldType::ItemLink,
            (x, _) => x.clone(),
        }
    }

    /// The meet, or `None` for an incompatible pair.
    pub fn try_meet(&self, b: &FieldType) -> (r: Option<FieldType>)
        ensures
            match r {
                Some(t) => compatible(*self, *b) && t == spec_meet(*self, *b),
                None => !compatible(*self, *b),
            },
    {
        if self.is_compatible(b) {
            Some(self.meet(b))
        } else {
            None
        }
    }
}

/// The column type a single metadata value suggests.
pub open spec fn spec_infer(f: FieldV) -> FieldType
    decreases f,
{
    match f {
        FieldV::I64(_) => FieldType::I64,
        FieldV::U64(_) => FieldType::U64,
        FieldV::String(_) => FieldType::String,
        FieldV::Interval(_) => FieldType::Interval,
        FieldV::ItemLink(_) => FieldType::ItemLink,
        FieldV::Vec(s) => FieldType::Vec(Box::new(spec_infer_row(s))),
        FieldV::Empty => FieldType::Empty,
    }
}

/// The element type of a list value: the left fold of the elements' types
/// under the meet, `Unknown` for an empty list.
pub open spec fn spec_infer_row(s: Seq<FieldV>) -> FieldType
    decreases s,
    via spec_infer_row_decreases
{
    if s.len() == 0 {
        FieldType::Unknown
    } else if s.len() == 1 {
        spec_infer(s[0])
    } else {
        spec_meet(spec_infer_row(s.subrange(0, s.len() - 1)), spec_infer(s[s.len() - 1]))
    }
}

#[via_fn]
proof fn spec_infer_row_decreases(s: Seq<FieldV>) {
    if s.len() > 0 {
        vstd::seq::axiom_seq_index_decreases(s, 0);
        vstd::seq::axiom_seq_index_decreases(s, s.len() - 1);
        if s.len() > 1 {
            vstd::seq::axiom_seq_subrange_decreases(s, 0, s.len() - 1);
        }
    }
}

/// Whether inferring a type meets only compatible pairs, so that
/// [`FieldType::infer_type`] is defined.
pub open spec fn infer_wf(f: FieldV) -> bool
    decreases f,
{
    match f {
        FieldV::Vec(s) => infer_row_wf(s),
        _ => true,
    }
}

/// Whether the left fold of a list's element types stays compatible.
pub open spec fn infer_row_wf(s: Seq<FieldV>) -> bool
    decreases s,
    via infer_row_wf_decreases
{
    if s.len() == 0 {
        true
    } else if s.len() == 1 {
        infer_wf(s[0])
    } else {
        &&& infer_row_wf(s.subrange(0, s.len() - 1))
        &&& infer_wf(s[s.len() - 1])
        &&& compatible(spec_infer_row(s.subrange(0, s.len() - 1)), spec_infer(s[s.len() - 1]))
    }
}

#[via_fn]
proof fn infer_row_wf_decreases(s: Seq<FieldV>) {
    if s.len() > 0 {
        vstd::seq::axiom_seq_index_decreases(s, 0);
        vstd::seq::axiom_seq_index_decreases(s, s.len() - 1);
        if s.len() > 1 {
            vstd::seq::axiom_seq_subrange_decreases(s, 0, s.len() - 1);
        }
    }
}

impl FieldType {
    /// The column type of a metadata value; for a list, the meet of its
    /// elements' types. A list of incompatible values is a schema error,
    /// ruled out by the caller with [`FieldType::try_infer`].
    pub fn infer_type(value: &crate::data::Field) -> (r: FieldType)
        requires
            infer_wf(value.dview()),
        ensures
            r == spec_infer(value.dview()),
        decreases value,
    {
        match value {
            crate::data::Field::I64(_) => FieldType::I64,
            crate::data::Field::U64(_) => FieldType::U64,
            crate::data::Field::String(_) => FieldType::String,
            crate::data::Field::Interval(_) => FieldType::Interval,
            crate::data::Field::ItemLink(_) => FieldType::ItemLink,
            crate::data::Field::Empty => FieldType::Empty,
            crate::data::Field::Vec(v) => {
                proof {
                    crate::data::lemma_seq_dview(v@);
                }
                let ghost s = crate::data::seq_dview(v@);
                if v.len() == 0 {
                    FieldType::Vec(Box::new(FieldType::Unknown))
                } else {
                    proof {
                        broadcast use vstd::std_specs::vec::group_vec_axioms;

                        assert(decreases_to!(*value => *v));
                        assert(decreases_to!(*v => v@));
                        assert(decreases_to!(v@ => v@[0]));
                        lemma_infer_row_wf_prefix(s, 1);
                        assert(s.subrange(0, 1) =~= seq![s[0]]);
                    }
                    let mut acc = Self::infer_type(&v[0]);
                    for i in 1..v.len()
                        invariant
                            s == crate::data::seq_dview(v@),
                            s.len() == v@.len(),
                            value.dview() == FieldV::Vec(s),
                            forall|j: int| 0 <= j < s.len() ==> s[j] == v@[j].dview(),
                            infer_row_wf(s),
                            acc == spec_infer_row(s.subrange(0, i as int)),
                            decreases_to!(*value => *v),
                        decreases v@.len() - i,
                    {
                        proof {
                            broadcast use vstd::std_specs::vec::group_vec_axioms;

                            assert(decreases_to!(*v => v@));
                            assert(decreases_to!(v@ => v@[i as int]));
                            lemma_infer_row_wf_prefix(s, i + 1);
                            assert(s.subrange(0, i + 1).subrange(0, i as int) =~= s.subrange(
                                0,
                                i as int,
                            ));
                            assert(s.subrange(0, i + 1)[i as int] == s[i as int]);
                        }
                        let e = Self::infer_type(&v[i]);
                        acc = acc.meet(&e);
                    }
                    proof {
                        assert(s.subrange(0, s.len() as int) =~= s);
                    }
                    FieldType::Vec(Box::new(acc))
                }
            },
        }
    }

    /// The column type of a metadata value, or `None` when a list inside it
    /// holds values of incompatible types.
    pub fn try_infer(value: &crate::data::Field) -> (r: Option<FieldType>)
        ensures
            match r {
                Some(t) => infer_wf(value.dview()) && t == spec_infer(value.dview()),
                None => !infer_wf(value.dview()),
            },
        decreases value,
    {
        match value {
            crate::data::Field::Vec(v) => {
                proof {
                    crate::data::lemma_seq_dview(v@);
                }
                let ghost s = crate::data::seq_dview(v@);
                if v.len() == 0 {
                    proof {
                        assert(s =~= Seq::<FieldV>::empty());
                    }
                    Some(FieldType::Vec(Box::new(FieldType::Unknown)))
                } else {
                    proof {
                        broadcast use vstd::std_specs::vec::group_vec_axioms;

                        assert(decreases_to!(*value => *v));
                        assert(decreases_to!(*v => v@));
                        assert(decreases_to!(v@ => v@[0]));
                    }
                    let first = Self::try_infer(&v[0]);
                    let mut acc = match first {
                        Some(t) => t,
                        None => {
                            proof {
                                assert(s[0] == v@[0].dview());
                                if infer_row_wf(s) {
                                    lemma_infer_row_wf_whole(s);
                                }
                            }
                            return None;
                        },
                    };
                    proof {
                        assert(s.subrange(0, 1) =~= seq![s[0]]);
                        assert(infer_row_wf(s.subrange(0, 1)));
                    }
                    for i in 1..v.len()
                        invariant
                            s == crate::data::seq_dview(v@),
                            s.len() == v@.len(),
                            value.dview() == FieldV::Vec(s),
                            forall|j: int| 0 <= j < s.len() ==> s[j] == v@[j].dview(),
                            infer_row_wf(s.subrange(0, i as int)),
                            acc == spec_infer_row(s.subrange(0, i as int)),
                            decreases_to!(*value => *v),
                        decreases v@.len() - i,
                    {
                        proof {
                            broadcast use vstd::std_specs::vec::group_vec_axioms;

                            assert(decreases_to!(*v => v@));
                            assert(decreases_to!(v@ => v@[i as int]));
                        }
                        let e = match Self::try_infer(&v[i]) {
                            Some(t) => t,
                            None => {
                                proof {
                                    assert(s[i as int] == v@[i as int].dview());
                                    if infer_row_wf(s) {
                                        lemma_infer_row_wf_at(s, i as int);
                                    }
                                }
                                return None;
                            },
                        };
                        let joined = match acc.try_meet(&e) {
                            Some(t) => t,
                            None => {
                                proof {
                                    assert(s[i as int] == v@[i as int].dview());
                                    if infer_row_wf(s) {
                                        lemma_infer_row_wf_step(s, i as int);
                                        lemma_infer_row_wf_prefix(s, i as int);
                                    }
                                }
                                return None;
                            },
                        };
                        acc = joined;
                        proof {
                            assert(s.subrange(0, i + 1).subrange(0, i as int) =~= s.subrange(
                                0,
                                i as int,
                            ));
                            assert(s.subrange(0, i + 1)[i as int] == s[i as int]);
                        }
                    }
                    proof {
                        assert(s.subrange(0, s.len() as int) =~= s);
                    }
                    Some(FieldType::Vec(Box::new(acc)))
                }
            },
            _ => {
                proof {
                    assert(infer_wf(value.dview()));
                }
                Some(Self::infer_type(value))
            },
        }
    }
}

/// A prefix of a well-formed fold is well-formed.
proof fn lemma_infer_row_wf_prefix(s: Seq<FieldV>, n: int)
    requires
        infer_row_wf(s),
        1 <= n <= s.len(),
    ensures
        infer_row_wf(s.subrange(0, n)),
    decreases s.len() - n,
{
    if n == s.len() {
        assert(s.subrange(0, n) =~= s);
    } else {
        lemma_infer_row_wf_prefix(s, n + 1);
        let t = s.subrange(0, n + 1);
        assert(t.subrange(0, t.len() - 1) =~= s.subrange(0, n));
    }
}

/// If the whole fold is well-formed, the first element's inference is.
proof fn lemma_infer_row_wf_whole(s: Seq<FieldV>)
    requires
        s.len() >= 1,
        infer_row_wf(s),
    ensures
        infer_wf(s[0]),
    decreases s.len(),
{
    if s.len() > 1 {
        lemma_infer_row_wf_whole(s.subrange(0, s.len() - 1));
        assert(s.subrange(0, s.len() - 1)[0] == s[0]);
    }
}

/// If the whole fold is well-formed, every element's inference is.
proof fn lemma_infer_row_wf_at(s: Seq<FieldV>, i: int)
    requires
        0 <= i < s.len(),
        infer_row_wf(s),
    ensures
        infer_wf(s[i]),
    decreases s.len(),
{
    if i < s.len() - 1 {
        lemma_infer_row_wf_at(s.subrange(0, s.len() - 1), i);
        assert(s.subrange(0, s.len() - 1)[i] == s[i]);
    }
}

/// If the whole fold is well-formed, each intermediate meet is compatible.
proof fn lemma_infer_row_wf_step(s: Seq<FieldV>, i: int)
    requires
        1 <= i < s.len(),
        infer_row_wf(s),
    ensures
        compatible(spec_infer_row(s.subrange(0, i)), spec_infer(s[i])),
    decreases s.len(),
{
    if i == s.len() - 1 {
        assert(s.subrange(0, s.len() - 1) == s.subrange(0, i));
    } else {
        lemma_infer_row_wf_at(s, i);
        lemma_infer_row_wf_step(s.subrange(0, s.len() - 1), i);
        assert(s.subrange(0, s.len() - 1).subrange(0, i) =~= s.subrange(0, i));
        assert(s.subrange(0, s.len() - 1)[i] == s[i]);
    }
}


/// The sanitized text of `s` from position `i` on: maximal runs of ASCII
/// letters and digits, lower-cased, joined by underscores. `emitted` records
/// whether anything was produced before `i`; `in_token` whether position
/// `i - 1` was a letter or digit.
pub open spec fn spec_sanitize_from(s: Seq<char>, i: int, emitted: bool, in_token: bool) -> Seq<
    char,
>
    decreases s.len() - i,
{
    if i < 0 || i >= s.len() {
        Seq::empty()
    } else {
        let c = s[i];
        if crate::text::spec_is_alnum(c) {
            if !in_token && emitted {
                seq!['_', crate::text::spec_lower(c)] + spec_sanitize_from(s, i + 1, true, true)
            } else {
                seq![crate::text::spec_lower(c)] + spec_sanitize_from(s, i + 1, true, true)
            }
        } else {
            spec_sanitize_from(s, i + 1, emitted, false)
        }
    }
}

/// The sanitized form of a name: runs of `[A-Za-z0-9]` lower-cased and
/// joined by `_`; everything else dropped.
pub open spec fn spec_sanitize(s: Seq<char>) -> Seq<char> {
    spec_sanitize_from(s, 0, false, false)
}

/// Sanitize a name for use as a slug or column name.
pub fn sanitize(s: &str) -> (r: String)
    ensures
        r@ == spec_sanitize(s@),
{
    let cs = crate::text::chars_of(s);
    let mut out: Vec<char> = Vec::new();
    let mut emitted = false;
    let mut in_token = false;
    for i in 0..cs.len()
        invariant
            cs@ =~= s@,
            spec_sanitize(s@) == out@ + spec_sanitize_from(s@, i as int, emitted, in_token),
            emitted == (out@.len() > 0),
    {
        let c = cs[i];
        let ghost pre = out@;
        if crate::text::is_alnum(c) {
            if !in_token && emitted {
                out.push('_');
            }
            out.push(crate::text::lower(c));
            proof {
                if !in_token && emitted {
                    assert(out@ =~= pre + seq!['_', crate::text::spec_lower(c)]);
                } else {
                    assert(out@ =~= pre + seq![crate::text::spec_lower(c)]);
                }
                assert(out@ + spec_sanitize_from(s@, i + 1, true, true) =~= pre
                    + spec_sanitize_from(s@, i as int, emitted, in_token));
            }
            emitted = true;
            in_token = true;
        } else {
            in_token = false;
        }
    }
    proof {
        assert(spec_sanitize(s@) =~= out@);
    }
    crate::text::chars_to_string(&out)
}

/// Whether a column type can be rendered as SQL: `Unknown` cannot, not even
/// inside a list.
pub open spec fn writable(t: FieldType) -> bool
    decreases t,
{
    match t {
        FieldType::Unknown => false,
        FieldType::Vec(v) => writable(*v),
        _ => true,
    }
}

/// The SQL text of a column type.
pub open spec fn spec_sql_type(t: FieldType) -> Seq<char>
    recommends
        writable(t),
    decreases t,
{
    match t {
        FieldType::I64 => "BIGINT"@,
        FieldType::U64 => "UBIGINT"@,
        FieldType::String => "TEXT"@,
        FieldType::Interval => "STRUCT(start BIGINT, stop BIGINT, duration BIGINT)"@,
        FieldType::ItemLink => "STRUCT(item_uid UBIGINT, title TEXT, interval STRUCT(start BIGINT, stop BIGINT, duration BIGINT), entry_slug TEXT)"@,
        FieldType::Vec(v) => spec_sql_type(*v) + "[]"@,
        FieldType::Empty => "BOOLEAN"@,
        FieldType::Unknown => Seq::empty(),
    }
}

/// Whether a column type can be rendered; the executable [`writable`].
pub fn is_writable(t: &FieldType) -> (r: bool)
    ensures
        r == writable(*t),
    decreases t,
{
    match t {
        FieldType::Unknown => false,
        FieldType::Vec(v) => is_writable(&**v),
        _ => true,
    }
}

/// Render a column type as SQL text.
pub fn sql_type_text(t: &FieldType) -> (r: String)
    requires
        writable(*t),
    ensures
        r@ == spec_sql_type(*t),
    decreases t,
{
    match t {
        FieldType::I64 => "BIGINT".to_owned(),
        FieldType::U64 => "UBIGINT".to_owned(),
        FieldType::String => "TEXT".to_owned(),
        FieldType::Interval => "STRUCT(start BIGINT, stop BIGINT, duration BIGINT)".to_owned(),
        FieldType::ItemLink => "STRUCT(item_uid UBIGINT, title TEXT, interval STRUCT(start BIGINT, stop BIGINT, duration BIGINT), entry_slug TEXT)".to_owned(),
        FieldType::Vec(v) => {
            let mut out = sql_type_text(&**v);
            out.append("[]");
            out
        },
        FieldType::Empty => "BOOLEAN".to_owned(),
        FieldType::Unknown => "".to_owned(),
    }
}

/// The SQL statement that widens a column to an item link, rewriting each
/// stored value as the link's title.
pub open spec fn spec_upgrade_sql(table: Seq<char>, column: Seq<char>) -> Seq<char> {
    "ALTER TABLE "@ + table + " ALTER COLUMN "@ + column + " TYPE "@ + spec_sql_type(
        FieldType::ItemLink,
    ) + " USING {'item_uid': NULL, 'title': "@ + column
        + ", 'interval': {'start': NULL, 'stop': NULL, 'duration': NULL}, 'entry_slug': NULL};"@
}

/// Build the data-migrating column upgrade statement. Only promotions of
/// `U64` or `String` columns to `ItemLink` are supported.
pub fn upgrade_column_sql(table: &str, column: &str, from: &FieldType, to: &FieldType) -> (r:
    String)
    requires
        *from matches FieldType::U64 || *from matches FieldType::String,
        *to matches FieldType::ItemLink,
    ensures
        r@ == spec_upgrade_sql(table@, column@),
{
    let mut out = "ALTER TABLE ".to_owned();
    out.append(table);
    out.append(" ALTER COLUMN ");
    out.append(column);
    out.append(" TYPE ");
    let ty = sql_type_text(to);
    out.append(ty.as_str());
    out.append(" USING {'item_uid': NULL, 'title': ");
    out.append(column);
    out.append(", 'interval': {'start': NULL, 'stop': NULL, 'duration': NULL}, 'entry_slug': NULL};");
    out
}


/// One row of the export's `entries` table.
pub struct EntryRow {
    pub entry_id: crate::data::EntryID,
    pub entry_id_slug: String,
    pub parent_id_slug: Option<String>,
}

/// The mathematical value of an [`EntryRow`].
pub struct EntryRowV {
    pub entry_id: Seq<crate::data::EntryIndex>,
    pub slug: Seq<char>,
    pub parent_slug: Option<Seq<char>>,
}

impl EntryRow {
    pub open spec fn dview(&self) -> EntryRowV {
        EntryRowV {
            entry_id: self.entry_id@,
            slug: self.entry_id_slug@,
            parent_slug: match self.parent_id_slug {
                Some(p) => Some(p@),
                None => None,
            },
        }
    }
}

/// The mathematical values of a row list.
pub open spec fn rows_dview(s: Seq<EntryRow>) -> Seq<EntryRowV> {
    Seq::new(s.len(), |i: int| s[i].dview())
}

/// A node's slug: the sanitized short name, prefixed by the parent's slug
/// and an underscore when there is a parent. The same sanitize rule applies
/// to every segment, so slugs stay unique and predictable.
pub open spec fn slug_of(parent: Option<Seq<char>>, short_name: Seq<char>) -> Seq<char> {
    match parent {
        Some(p) => p + seq!['_'] + spec_sanitize(short_name),
        None => spec_sanitize(short_name),
    }
}

/// The export rows of one node and its descendants, in preorder: panels and
/// slots produce a row; summaries produce none.
pub open spec fn spec_walk(
    info: crate::data::EntryInfoV,
    entry_id: Seq<crate::data::EntryIndex>,
    parent: Option<Seq<char>>,
) -> Seq<EntryRowV>
    decreases info, 0int,
{
    match info {
        crate::data::EntryInfoV::Panel { short_name, slots, .. } => {
            let slug = slug_of(parent, short_name);
            seq![EntryRowV { entry_id: entry_id, slug: slug, parent_slug: parent }]
                + spec_walk_list(slots, entry_id, Some(slug), 0)
        },
        crate::data::EntryInfoV::Slot { short_name, .. } => {
            seq![
                EntryRowV {
                    entry_id: entry_id,
                    slug: slug_of(parent, short_name),
                    parent_slug: parent,
                },
            ]
        },
        crate::data::EntryInfoV::Summary { .. } => Seq::empty(),
    }
}

/// The export rows of the children `slots[i..]`, child `i` addressed as slot
/// `i` of `entry_id`.
pub open spec fn spec_walk_list(
    slots: Seq<crate::data::EntryInfoV>,
    entry_id: Seq<crate::data::EntryIndex>,
    parent: Option<Seq<char>>,
    i: int,
) -> Seq<EntryRowV>
    decreases slots, slots.len() - i,
    via spec_walk_list_decreases
{
    if i < 0 || i >= slots.len() {
        Seq::empty()
    } else {
        spec_walk(slots[i], entry_id.push(crate::data::EntryIndex::Slot(i as u64)), parent)
            + spec_walk_list(slots, entry_id, parent, i + 1)
    }
}

#[via_fn]
proof fn spec_walk_list_decreases(
    slots: Seq<crate::data::EntryInfoV>,
    entry_id: Seq<crate::data::EntryIndex>,
    parent: Option<Seq<char>>,
    i: int,
) {
    if 0 <= i < slots.len() {
        vstd::seq::axiom_seq_index_decreases(slots, i);
    }
}

/// The rows of the whole entry tree: the root panel itself is not exported;
/// its children walk with no parent slug.
pub open spec fn spec_walk_entries(root: crate::data::EntryInfoV) -> Seq<EntryRowV> {
    match root {
        crate::data::EntryInfoV::Panel { slots, .. } => spec_walk_list(
            slots,
            Seq::empty(),
            None,
            0,
        ),
        _ => Seq::empty(),
    }
}

/// The view of an optional borrowed slug.
pub open spec fn opt_slug_view(p: Option<&String>) -> Option<Seq<char>> {
    match p {
        Some(s) => Some(s@),
        None => None,
    }
}

/// Append the rows of one node and its descendants.
fn walk_node(
    info: &crate::data::EntryInfo,
    entry_id: crate::data::EntryID,
    parent: Option<&String>,
    result: &mut Vec<EntryRow>,
)
    ensures
        rows_dview(final(result)@) =~= rows_dview(old(result)@) + spec_walk(
            info.dview(),
            entry_id@,
            opt_slug_view(parent),
        ),
    decreases info, 0int,
{
    let ghost pre = result@;
    match info {
        crate::data::EntryInfo::Panel { short_name, slots, .. } => {
            let san = sanitize(short_name.as_str());
            let slug_str: String = match parent {
                Some(p) => {
                    let mut x = (*p).clone();
                    x.append("_");
                    x.append(san.as_str());
                    proof {
                        reveal_strlit("_");
                        assert("_"@ =~= seq!['_']);
                        assert(x@ =~= slug_of(opt_slug_view(parent), short_name@));
                    }
                    x
                },
                None => san,
            };
            let parent_owned: Option<String> = match parent {
                Some(p) => Some((*p).clone()),
                None => None,
            };
            result.push(
                EntryRow {
                    entry_id: entry_id.key_clone(),
                    entry_id_slug: slug_str.clone(),
                    parent_id_slug: parent_owned,
                },
            );
            let ghost slots_v = crate::data::entry_list_dview(slots@);
            proof {
                crate::data::lemma_entry_list_dview(slots@);
                assert(rows_dview(result@) =~= rows_dview(pre) + seq![
                    EntryRowV {
                        entry_id: entry_id@,
                        slug: slug_of(opt_slug_view(parent), short_name@),
                        parent_slug: opt_slug_view(parent),
                    },
                ]);
            }
            for i in 0..slots.len()
                invariant
                    slots_v == crate::data::entry_list_dview(slots@),
                    slots_v.len() == slots@.len(),
                    forall|j: int| 0 <= j < slots@.len() ==> slots_v[j] == slots@[j].dview(),
                    slug_str@ == slug_of(opt_slug_view(parent), short_name@),
                    rows_dview(result@) + spec_walk_list(slots_v, entry_id@, Some(slug_str@), i as int)
                        =~= rows_dview(pre) + spec_walk(
                        info.dview(),
                        entry_id@,
                        opt_slug_view(parent),
                    ),
                    decreases_to!(*info => *slots),
                decreases slots@.len() - i,
            {
                proof {
                    broadcast use vstd::std_specs::vec::group_vec_axioms;

                    assert(decreases_to!(*slots => slots@));
                    assert(decreases_to!(slots@ => slots@[i as int]));
                }
                let child = entry_id.child(i as u64);
                let ghost before = result@;
                walk_node(&slots[i], child, Some(&slug_str), result);
                proof {
                    assert(rows_dview(result@) =~= rows_dview(before) + spec_walk(
                        slots_v[i as int],
                        entry_id@.push(crate::data::EntryIndex::Slot(i as u64)),
                        Some(slug_str@),
                    ));
                }
            }
        },
        crate::data::EntryInfo::Slot { short_name, .. } => {
            let san = sanitize(short_name.as_str());
            let slug_str: String = match parent {
                Some(p) => {
                    let mut x = (*p).clone();
                    x.append("_");
                    x.append(san.as_str());
                    proof {
                        reveal_strlit("_");
                        assert("_"@ =~= seq!['_']);
                        assert(x@ =~= slug_of(opt_slug_view(parent), short_name@));
                    }
                    x
                },
                None => san,
            };
            let parent_owned: Option<String> = match parent {
                Some(p) => Some((*p).clone()),
                None => None,
            };
            result.push(
                EntryRow {
                    entry_id: entry_id,
                    entry_id_slug: slug_str,
                    parent_id_slug: parent_owned,
                },
            );
            proof {
                assert(rows_dview(result@) =~= rows_dview(pre) + spec_walk(
                    info.dview(),
                    entry_id@,
                    opt_slug_view(parent),
                ));
            }
        },
        crate::data::EntryInfo::Summary { .. } => {
            proof {
                assert(rows_dview(result@) =~= rows_dview(pre) + spec_walk(
                    info.dview(),
                    entry_id@,
                    opt_slug_view(parent),
                ));
            }
        },
    }
}

/// The rows of the export's `entries` table, one per panel or slot below the
/// root, each with its slug and its parent's slug.
pub fn walk_entry_list(info: &crate::data::EntryInfo) -> (r: Vec<EntryRow>)
    requires
        info.dview() is Panel,
    ensures
        rows_dview(r@) =~= spec_walk_entries(info.dview()),
{
    let mut result: Vec<EntryRow> = Vec::new();
    match info {
        crate::data::EntryInfo::Panel { slots, .. } => {
            let ghost slots_v = crate::data::entry_list_dview(slots@);
            proof {
                crate::data::lemma_entry_list_dview(slots@);
                assert(rows_dview(result@) =~= Seq::<EntryRowV>::empty());
            }
            let root = crate::data::EntryID::root();
            for i in 0..slots.len()
                invariant
                    slots_v == crate::data::entry_list_dview(slots@),
                    slots_v.len() == slots@.len(),
                    forall|j: int| 0 <= j < slots@.len() ==> slots_v[j] == slots@[j].dview(),
                    root@ =~= Seq::<crate::data::EntryIndex>::empty(),
                    rows_dview(result@) + spec_walk_list(slots_v, root@, None, i as int)
                        =~= spec_walk_entries(info.dview()),
                    decreases_to!(*info => *slots),
                decreases slots@.len() - i,
            {
                proof {
                    broadcast use vstd::std_specs::vec::group_vec_axioms;

                    assert(decreases_to!(*slots => slots@));
                    assert(decreases_to!(slots@ => slots@[i as int]));
                }
                let child = root.child(i as u64);
                let ghost before = result@;
                walk_node(&slots[i], child, None, &mut result);
                proof {
                    assert(rows_dview(result@) =~= rows_dview(before) + spec_walk(
                        slots_v[i as int],
                        root@.push(crate::data::EntryIndex::Slot(i as u64)),
                        None,
                    ));
                }
            }
        },
        _ => {
            proof {
                assert(false);
            }
        },
    }
    result
}

/// Whether all slugs in the row list are pairwise distinct, as spec.
pub open spec fn spec_slugs_unique(rows: Seq<EntryRowV>) -> bool {
    forall|i: int, j: int| 0 <= i < j < rows.len() ==> rows[i].slug != rows[j].slug
}

/// Whether all slugs are pairwise distinct. The export treats a duplicate as
/// a fatal error.
pub fn slugs_unique(rows: &Vec<EntryRow>) -> (r: bool)
    ensures
        r == spec_slugs_unique(rows_dview(rows@)),
{
    let n = rows.len();
    for i in 0..n
        invariant
            n == rows@.len(),
            forall|a: int, b: int|
                0 <= a < b < rows@.len() && a < i ==> rows_dview(rows@)[a].slug != rows_dview(
                    rows@,
                )[b].slug,
    {
        for j in (i + 1)..n
            invariant
                n == rows@.len(),
                i < n,
                forall|a: int, b: int|
                    0 <= a < b < rows@.len() && a < i ==> rows_dview(rows@)[a].slug != rows_dview(
                        rows@,
                    )[b].slug,
                forall|b: int|
                    i < b < j ==> rows_dview(rows@)[i as int].slug != rows_dview(rows@)[b].slug,
        {
            if crate::data::str_eq(rows[i].entry_id_slug.as_str(), rows[j].entry_id_slug.as_str())
            {
                proof {
                    assert(rows_dview(rows@)[i as int].slug == rows_dview(rows@)[j as int].slug);
                }
                return false;
            }
        }
    }
    true
}


/// An export schema error.
#[derive(Debug, Copy, Clone, PartialEq, Eq, Structural)]
pub enum ExportError {
    /// Two values of the same field cannot share a column type.
    SchemaIncompatible,
    /// An item carried a field identifier the schema has no name for.
    UnknownField,
    /// Two entries produced the same slug.
    DuplicateEntrySlug,
}

/// The evolving export schema: which column each field identifier owns, the
/// columns' names and types, and which columns changed type during the
/// current tile (with the type each had before its first change).
pub struct SchemaState {
    pub fslots: Map<crate::data::FieldID, usize>,
    pub sfields: Seq<(Seq<char>, FieldType)>,
    pub changed: Map<usize, FieldType>,
}

/// One step of schema inference: a known field's column type meets the
/// value's type, recording the first old type of a column that changes; an
/// unknown field appends a new column named after the field. `None` is a
/// schema error.
pub open spec fn spec_ingest_field(
    st: SchemaState,
    f: crate::data::ItemFieldV,
    names: Seq<Seq<char>>,
) -> Option<SchemaState> {
    if !infer_wf(f.value) {
        None
    } else {
        let ft = spec_infer(f.value);
        if st.fslots.contains_key(f.id) {
            let slot = st.fslots[f.id];
            if slot >= st.sfields.len() {
                None
            } else {
                let old_t = st.sfields[slot as int].1;
                if !compatible(old_t, ft) {
                    None
                } else {
                    let m = spec_meet(old_t, ft);
                    if m == old_t {
                        Some(st)
                    } else {
                        Some(
                            SchemaState {
                                fslots: st.fslots,
                                sfields: st.sfields.update(
                                    slot as int,
                                    (st.sfields[slot as int].0, m),
                                ),
                                changed: if st.changed.contains_key(slot) {
                                    st.changed
                                } else {
                                    st.changed.insert(slot, old_t)
                                },
                            },
                        )
                    }
                }
            }
        } else {
            if f.id.0 >= names.len() {
                None
            } else {
                Some(
                    SchemaState {
                        fslots: st.fslots.insert(f.id, st.sfields.len() as usize),
                        sfields: st.sfields.push((spec_sanitize(names[f.id.0 as int]), ft)),
                        changed: st.changed,
                    },
                )
            }
        }
    }
}

/// Schema inference folded over a list of fields, left to right.
pub open spec fn spec_ingest_fields(
    st: SchemaState,
    fs: Seq<crate::data::ItemFieldV>,
    names: Seq<Seq<char>>,
) -> Option<SchemaState>
    decreases fs.len(),
{
    if fs.len() == 0 {
        Some(st)
    } else {
        match spec_ingest_fields(st, fs.subrange(0, fs.len() - 1), names) {
            Some(st2) => spec_ingest_field(st2, fs[fs.len() - 1], names),
            None => None,
        }
    }
}

/// All fields of a row of items, in item order.
pub open spec fn row_fields(row: Seq<crate::data::ItemMetaV>) -> Seq<crate::data::ItemFieldV>
    decreases row.len(),
{
    if row.len() == 0 {
        Seq::empty()
    } else {
        row_fields(row.subrange(0, row.len() - 1)) + row[row.len() - 1].fields
    }
}

/// All fields of a tile's rows, in row order.
pub open spec fn tile_fields(rows: Seq<Seq<crate::data::ItemMetaV>>) -> Seq<
    crate::data::ItemFieldV,
>
    decreases rows.len(),
{
    if rows.len() == 0 {
        Seq::empty()
    } else {
        tile_fields(rows.subrange(0, rows.len() - 1)) + row_fields(rows[rows.len() - 1])
    }
}

/// The schema actions one tile requires: columns to add, and columns to
/// upgrade from their first old type to their final type.
#[derive(Debug)]
pub struct IngestActions {
    pub new_columns: Vec<(String, FieldType)>,
    pub upgrades: Vec<(usize, FieldType, FieldType)>,
}

/// The discovered export schema: field identifiers mapped to column
/// positions, and the columns' names and types.
pub struct SlotMetaTable {
    field_slots: crate::map::AssocMap<crate::data::FieldID, usize>,
    slot_fields: Vec<(String, FieldType)>,
}

impl SlotMetaTable {
    pub closed spec fn fslots(&self) -> Map<crate::data::FieldID, usize> {
        self.field_slots@
    }

    pub closed spec fn sfields(&self) -> Seq<(Seq<char>, FieldType)> {
        Seq::new(
            self.slot_fields@.len(),
            |i: int| (self.slot_fields@[i].0@, self.slot_fields@[i].1),
        )
    }

    /// The underlying key store is well-formed.
    pub closed spec fn store_wf(&self) -> bool {
        self.field_slots.wf()
    }

    /// Every known field identifier owns a real column.
    pub open spec fn wf(&self) -> bool {
        &&& self.store_wf()
        &&& forall|id: crate::data::FieldID|
            #[trigger] self.fslots().contains_key(id) ==> self.fslots()[id] < self.sfields().len()
    }

    /// This table's schema state, for a given changed-column record.
    pub open spec fn st(&self, changed: Map<usize, FieldType>) -> SchemaState {
        SchemaState { fslots: self.fslots(), sfields: self.sfields(), changed }
    }

    pub fn new() -> (r: SlotMetaTable)
        ensures
            r.wf(),
            r.fslots() =~= Map::<crate::data::FieldID, usize>::empty(),
            r.sfields() =~= Seq::<(Seq<char>, FieldType)>::empty(),
    {
        let r = SlotMetaTable {
            field_slots: crate::map::AssocMap::new(),
            slot_fields: Vec::new(),
        };
        proof {
            assert(r.sfields() =~= Seq::<(Seq<char>, FieldType)>::empty());
        }
        r
    }

    /// The number of columns.
    pub fn num_columns(&self) -> (r: usize)
        ensures
            r == self.sfields().len(),
    {
        self.slot_fields.len()
    }

    /// The name and type of a column.
    pub fn column(&self, slot: usize) -> (r: (&String, &FieldType))
        requires
            slot < self.sfields().len(),
        ensures
            r.0@ == self.sfields()[slot as int].0,
            *r.1 == self.sfields()[slot as int].1,
    {
        (&self.slot_fields[slot].0, &self.slot_fields[slot].1)
    }

    /// Ingest one field of one item: exactly one step of the schema fold.
    /// On an error nothing changes.
    fn ingest_field(
        &mut self,
        changed: &mut crate::map::AssocMap<usize, FieldType>,
        f: &crate::data::ItemField,
        schema: &crate::data::FieldSchema,
    ) -> (r: Result<(), ExportError>)
        requires
            old(self).wf(),
            old(changed).wf(),
        ensures
            final(self).wf(),
            final(changed).wf(),
            old(self).sfields().len() <= final(self).sfields().len(),
            forall|sl: usize|
                final(changed)@.contains_key(sl) ==> old(changed)@.contains_key(sl)
                    || sl < final(self).sfields().len(),
            match r {
                Ok(()) => spec_ingest_field(
                    old(self).st(old(changed)@),
                    f.dview(),
                    schema.spec_names(),
                ) == Some(final(self).st(final(changed)@)),
                Err(e) => {
                    &&& spec_ingest_field(
                        old(self).st(old(changed)@),
                        f.dview(),
                        schema.spec_names(),
                    ) is None
                    &&& *final(self) == *old(self)
                    &&& final(changed)@ == old(changed)@
                    &&& (e matches ExportError::UnknownField) == (infer_wf(f.dview().value)
                        && !old(self).fslots().contains_key(f.dview().id) && f.dview().id.0
                        >= schema.spec_names().len())
                    &&& !(e matches ExportError::DuplicateEntrySlug)
                },
            },
    {
        let ghost st0 = old(self).st(old(changed)@);
        let ft = match FieldType::try_infer(&f.1) {
            Some(t) => t,
            None => {
                return Err(ExportError::SchemaIncompatible);
            },
        };
        let has = self.field_slots.get(&f.0);
        match has {
            Some(slot_ref) => {
                let slot: usize = *slot_ref;
                proof {
                    assert(self.fslots().contains_key(f.0));
                }
                let old_t = self.slot_fields[slot].1.clone();
                let m = match old_t.try_meet(&ft) {
                    Some(m) => m,
                    None => {
                        return Err(ExportError::SchemaIncompatible);
                    },
                };
                if m == old_t {
                    proof {
                        assert(spec_ingest_field(st0, f.dview(), schema.spec_names()) == Some(
                            st0,
                        ));
                    }
                    Ok(())
                } else {
                    if !changed.contains_key(&slot) {
                        changed.insert(slot, old_t);
                    }
                    let name = self.slot_fields[slot].0.clone();
                    self.slot_fields.set(slot, (name, m));
                    proof {
                        assert(self.sfields() =~= st0.sfields.update(
                            slot as int,
                            (st0.sfields[slot as int].0, spec_meet(
                                st0.sfields[slot as int].1,
                                spec_infer(f.dview().value),
                            )),
                        ));
                        assert(self.st(changed@) == spec_ingest_field(
                            st0,
                            f.dview(),
                            schema.spec_names(),
                        )->0);
                    }
                    Ok(())
                }
            },
            None => {
                match schema.get_name(f.0) {
                    Some(name) => {
                        let san = sanitize(name.as_str());
                        let slot = self.slot_fields.len();
                        self.field_slots.insert(f.0, slot);
                        self.slot_fields.push((san, ft));
                        proof {
                            assert(self.sfields() =~= st0.sfields.push(
                                (spec_sanitize(schema.spec_names()[f.dview().id.0 as int]),
                                spec_infer(f.dview().value)),
                            ));
                            assert(self.st(changed@) == spec_ingest_field(
                                st0,
                                f.dview(),
                                schema.spec_names(),
                            )->0);
                        }
                        Ok(())
                    },
                    None => Err(ExportError::UnknownField),
                }
            },
        }
    }
}


/// The views of a list of borrowed fields.
pub open spec fn field_views(s: Seq<&crate::data::ItemField>) -> Seq<crate::data::ItemFieldV> {
    Seq::new(s.len(), |i: int| s[i].dview())
}

/// Collect every field of every item of a tile, in row, item, field order.
fn flatten_fields<'a>(data: &'a crate::data::SlotMetaTileData) -> (r: Vec<
    &'a crate::data::ItemField,
>)
    ensures
        field_views(r@) =~= tile_fields(data.dview()),
{
    let mut flat: Vec<&crate::data::ItemField> = Vec::new();
    let ghost rows_v = data.dview();
    for r in 0..data.items.len()
        invariant
            rows_v == data.dview(),
            rows_v.len() == data.items@.len(),
            forall|j: int|
                0 <= j < rows_v.len() ==> rows_v[j] == crate::data::meta_row_view(
                    #[trigger] data.items@[j]@,
                ),
            field_views(flat@) =~= tile_fields(rows_v.subrange(0, r as int)),
    {
        let row = &data.items[r];
        let ghost row_v = rows_v[r as int];
        let ghost base = field_views(flat@);
        for it in 0..row.len()
            invariant
                rows_v == data.dview(),
                row_v == rows_v[r as int],
                r < rows_v.len(),
                row_v == crate::data::meta_row_view(row@),
                row_v.len() == row@.len(),
                forall|j: int| 0 <= j < row@.len() ==> row_v[j] == #[trigger] row@[j].dview(),
                base =~= tile_fields(rows_v.subrange(0, r as int)),
                field_views(flat@) =~= base + row_fields(row_v.subrange(0, it as int)),
        {
            let item = &row[it];
            let ghost fields_v = row_v[it as int].fields;
            let ghost base2 = field_views(flat@);
            for fi in 0..item.fields.len()
                invariant
                    fields_v == row_v[it as int].fields,
                    it < row_v.len(),
                    fields_v == item.dview().fields,
                    fields_v.len() == item.fields@.len(),
                    forall|j: int|
                        0 <= j < item.fields@.len() ==> fields_v[j]
                            == (#[trigger] item.fields@[j]).dview(),
                    base2 =~= base + row_fields(row_v.subrange(0, it as int)),
                    field_views(flat@) =~= base2 + fields_v.subrange(0, fi as int),
            {
                let ghost fpre = flat@;
                flat.push(&item.fields[fi]);
                proof {
                    assert(fields_v[fi as int] == item.fields@[fi as int].dview());
                    assert(flat@ =~= fpre.push(flat@[flat@.len() - 1]));
                    assert(flat@[flat@.len() - 1].dview() == fields_v[fi as int]);
                    assert(field_views(flat@) =~= field_views(fpre).push(fields_v[fi as int]));
                    assert(fields_v.subrange(0, fi + 1) =~= fields_v.subrange(0, fi as int).push(
                        fields_v[fi as int],
                    ));
                    assert(base2 + fields_v.subrange(0, fi + 1) =~= (base2 + fields_v.subrange(
                        0,
                        fi as int,
                    )).push(fields_v[fi as int]));
                    assert(field_views(flat@) =~= base2 + fields_v.subrange(0, fi + 1));
                }
            }
            proof {
                assert(fields_v.subrange(0, fields_v.len() as int) =~= fields_v);
                let cur = row_v.subrange(0, it + 1);
                assert(cur.subrange(0, cur.len() - 1) =~= row_v.subrange(0, it as int));
                assert(cur[cur.len() - 1] == row_v[it as int]);
                assert(field_views(flat@) =~= base + row_fields(row_v.subrange(0, it + 1)));
            }
        }
        proof {
            assert(row_v.subrange(0, row_v.len() as int) =~= row_v);
            let cur = rows_v.subrange(0, r + 1);
            assert(cur.subrange(0, cur.len() - 1) =~= rows_v.subrange(0, r as int));
            assert(cur[cur.len() - 1] == rows_v[r as int]);
            assert(field_views(flat@) =~= tile_fields(rows_v.subrange(0, r + 1)));
        }
    }
    proof {
        assert(rows_v.subrange(0, rows_v.len() as int) =~= rows_v);
    }
    flat
}

/// A failed step anywhere in the fold fails the whole fold.
proof fn lemma_fold_prefix_none(
    st0: SchemaState,
    fs: Seq<crate::data::ItemFieldV>,
    k: int,
    names: Seq<Seq<char>>,
)
    requires
        0 <= k < fs.len(),
        spec_ingest_fields(st0, fs.subrange(0, k), names) matches Some(m) && spec_ingest_field(
            m,
            fs[k],
            names,
        ) is None,
    ensures
        spec_ingest_fields(st0, fs, names) is None,
    decreases fs.len(),
{
    if k == fs.len() - 1 {
        assert(fs.subrange(0, fs.len() - 1) =~= fs.subrange(0, k));
    } else {
        assert(fs.subrange(0, fs.len() - 1).subrange(0, k) =~= fs.subrange(0, k));
        assert(fs.subrange(0, fs.len() - 1)[k] == fs[k]);
        lemma_fold_prefix_none(st0, fs.subrange(0, fs.len() - 1), k, names);
    }
}

/// Whether an upgrade list and a changed-column record name the same
/// columns, with the recorded first old type and the final type.
pub open spec fn upgrades_match(
    u: Seq<(usize, FieldType, FieldType)>,
    ch: Map<usize, FieldType>,
    sfields: Seq<(Seq<char>, FieldType)>,
) -> bool {
    &&& forall|k: int|
        0 <= k < u.len() ==> ch.contains_key((#[trigger] u[k]).0) && u[k].1 == ch[u[k].0]
            && u[k].0 < sfields.len() && u[k].2 == sfields[u[k].0 as int].1
    &&& forall|s: usize| #[trigger] ch.contains_key(s) ==> exists|k: int|
        0 <= k < u.len() && (#[trigger] u[k]).0 == s
    &&& forall|k1: int, k2: int| 0 <= k1 < k2 < u.len() ==> u[k1].0 != u[k2].0
}

/// The changed-column record that an upgrade list denotes: each listed slot
/// mapped to its recorded first old type.
pub open spec fn upgrades_changed_map(u: Seq<(usize, FieldType, FieldType)>) -> Map<
    usize,
    FieldType,
> {
    Map::new(
        |s: usize| exists|k: int| 0 <= k < u.len() && (#[trigger] u[k]).0 == s,
        |s: usize| u[choose|k: int| 0 <= k < u.len() && (#[trigger] u[k]).0 == s].1,
    )
}

/// The views of a column list.
pub open spec fn columns_view(v: Seq<(String, FieldType)>) -> Seq<(Seq<char>, FieldType)> {
    Seq::new(v.len(), |i: int| (v[i].0@, v[i].1))
}

impl SlotMetaTable {
    /// Run schema inference over every field of every item of a tile. On
    /// success the returned actions say which columns to add and which to
    /// upgrade; on a schema error the fold over the tile's fields has no
    /// result and the export aborts.
    pub fn ingest_tile(
        &mut self,
        data: &crate::data::SlotMetaTileData,
        schema: &crate::data::FieldSchema,
    ) -> (r: Result<IngestActions, ExportError>)
        requires
            old(self).wf(),
        ensures
            final(self).wf(),
            match r {
                Ok(actions) => {
                    &&& spec_ingest_fields(
                        old(self).st(Map::<usize, FieldType>::empty()),
                        tile_fields(data.dview()),
                        schema.spec_names(),
                    ) == Some(final(self).st(upgrades_changed_map(actions.upgrades@)))
                    &&& upgrades_match(
                        actions.upgrades@,
                        upgrades_changed_map(actions.upgrades@),
                        final(self).sfields(),
                    )
                    &&& old(self).sfields().len() <= final(self).sfields().len()
                    &&& columns_view(actions.new_columns@) =~= final(self).sfields().subrange(
                        old(self).sfields().len() as int,
                        final(self).sfields().len() as int,
                    )
                },
                Err(_) => spec_ingest_fields(
                    old(self).st(Map::<usize, FieldType>::empty()),
                    tile_fields(data.dview()),
                    schema.spec_names(),
                ) is None,
            },
    {
        let ghost st0 = old(self).st(Map::<usize, FieldType>::empty());
        let ghost names = schema.spec_names();
        let ghost full = tile_fields(data.dview());
        let old_len = self.slot_fields.len();
        let mut changed: crate::map::AssocMap<usize, FieldType> = crate::map::AssocMap::new();
        let flat = flatten_fields(data);
        proof {
            assert(spec_ingest_fields(st0, field_views(flat@).subrange(0, 0), names) == Some(
                self.st(changed@),
            ));
        }
        for k in 0..flat.len()
            invariant
                self.wf(),
                changed.wf(),
                field_views(flat@) =~= full,
                full == tile_fields(data.dview()),
                st0 == old(self).st(Map::<usize, FieldType>::empty()),
                names == schema.spec_names(),
                old_len == old(self).sfields().len(),
                old_len <= self.sfields().len(),
                forall|sl: usize| changed@.contains_key(sl) ==> sl < self.sfields().len(),
                spec_ingest_fields(st0, field_views(flat@).subrange(0, k as int), names) == Some(
                    self.st(changed@),
                ),
        {
            let ghost pre = self.st(changed@);
            match self.ingest_field(&mut changed, flat[k], schema) {
                Ok(()) => {
                    proof {
                        let cur = field_views(flat@).subrange(0, k + 1);
                        assert(cur.subrange(0, cur.len() - 1) =~= field_views(flat@).subrange(
                            0,
                            k as int,
                        ));
                        assert(cur[cur.len() - 1] == flat@[k as int].dview());
                        assert(spec_ingest_fields(st0, cur, names) == Some(self.st(changed@)));
                    }
                },
                Err(e) => {
                    proof {
                        assert(field_views(flat@)[k as int] == flat@[k as int].dview());
                        assert(spec_ingest_fields(
                            st0,
                            field_views(flat@).subrange(0, k as int),
                            names,
                        ) == Some(pre));
                        assert(spec_ingest_field(pre, field_views(flat@)[k as int], names)
                            is None);
                        lemma_fold_prefix_none(st0, field_views(flat@), k as int, names);
                    }
                    return Err(e);
                },
            }
        }
        proof {
            assert(field_views(flat@).subrange(0, flat@.len() as int) =~= full);
        }

        // Columns appended by this tile.
        let mut new_columns: Vec<(String, FieldType)> = Vec::new();
        let new_len = self.slot_fields.len();
        for i in old_len..new_len
            invariant
                self.wf(),
                changed.wf(),
                full == tile_fields(data.dview()),
                st0 == old(self).st(Map::<usize, FieldType>::empty()),
                names == schema.spec_names(),
                old_len == old(self).sfields().len(),
                old_len <= new_len,
                new_len == self.sfields().len(),
                forall|sl: usize| changed@.contains_key(sl) ==> sl < self.sfields().len(),
                spec_ingest_fields(st0, full, names) == Some(self.st(changed@)),
                columns_view(new_columns@) =~= self.sfields().subrange(old_len as int, i as int),
        {
            let ghost prevcols = new_columns@;
            let (name, ty) = self.column(i);
            new_columns.push((name.clone(), ty.clone()));
            proof {
                assert(new_columns@ =~= prevcols.push(new_columns@[new_columns@.len() - 1]));
                assert((new_columns@[new_columns@.len() - 1].0@, new_columns@[new_columns@.len()
                    - 1].1) == self.sfields()[i as int]);
                assert(columns_view(new_columns@) =~= columns_view(prevcols).push(
                    self.sfields()[i as int],
                ));
                assert(self.sfields().subrange(old_len as int, i + 1) =~= self.sfields().subrange(
                    old_len as int,
                    i as int,
                ).push(self.sfields()[i as int]));
                assert(columns_view(new_columns@) =~= self.sfields().subrange(
                    old_len as int,
                    i + 1,
                ));
            }
        }

        // Columns whose type changed, with their first old type and their
        // final type.
        let mut upgrades: Vec<(usize, FieldType, FieldType)> = Vec::new();
        let n_changed = changed.len();
        for i in 0..n_changed
            invariant
                changed.wf(),
                n_changed == changed.key_seq().len(),
                self.wf(),
                full == tile_fields(data.dview()),
                st0 == old(self).st(Map::<usize, FieldType>::empty()),
                names == schema.spec_names(),
                old_len == old(self).sfields().len(),
                old_len <= self.sfields().len(),
                columns_view(new_columns@) =~= self.sfields().subrange(
                    old_len as int,
                    self.sfields().len() as int,
                ),
                spec_ingest_fields(st0, full, names) == Some(self.st(changed@)),
                forall|s: usize| changed@.contains_key(s) ==> s < self.sfields().len(),
                forall|k: int|
                    0 <= k < upgrades@.len() ==> changed@.contains_key((#[trigger] upgrades@[k]).0)
                        && upgrades@[k].1 == changed@[upgrades@[k].0] && upgrades@[k].0
                        < self.sfields().len() && upgrades@[k].2
                        == self.sfields()[upgrades@[k].0 as int].1,
                forall|k: int|
                    0 <= k < upgrades@.len() ==> (#[trigger] upgrades@[k]).0
                        == changed.key_seq()[k],
                upgrades@.len() == i,
        {
            let slot = *changed.key_at(i);
            let old_t = changed.val_at(i).clone();
            proof {
                changed.lemma_entries();
                assert(changed@.contains_key(changed.key_seq()[i as int]));
            }
            let new_t = self.slot_fields[slot].1.clone();
            upgrades.push((slot, old_t, new_t));
        }
        proof {
            changed.lemma_entries();
            let ch = changed@;
            assert forall|s: usize| #[trigger] ch.contains_key(s) implies exists|k: int|
                0 <= k < upgrades@.len() && (#[trigger] upgrades@[k]).0 == s by {
                let j = choose|j: int|
                    0 <= j < changed.key_seq().len() && changed.key_seq()[j] == s;
                assert(upgrades@[j].0 == s);
            }
            assert forall|k1: int, k2: int|
                0 <= k1 < k2 < upgrades@.len() implies upgrades@[k1].0 != upgrades@[k2].0 by {
                assert(changed.key_seq()[k1] != changed.key_seq()[k2]);
            }
            assert(upgrades_match(upgrades@, ch, self.sfields()));
            assert(spec_ingest_fields(
                old(self).st(Map::<usize, FieldType>::empty()),
                tile_fields(data.dview()),
                schema.spec_names(),
            ) == Some(self.st(ch)));
            let ucm = upgrades_changed_map(upgrades@);
            assert forall|sl: usize| #[trigger] ucm.contains_key(sl) implies ch.contains_key(sl)
                && ucm[sl] == ch[sl] by {
                let k = choose|k: int| 0 <= k < upgrades@.len() && (#[trigger] upgrades@[k]).0
                    == sl;
                let k2 = choose|k2: int|
                    0 <= k2 < upgrades@.len() && (#[trigger] upgrades@[k2]).0 == sl;
                if k != k2 {
                    assert(upgrades@[k].0 != upgrades@[k2].0);
                }
                assert(ucm[sl] == upgrades@[k2].1);
                assert(upgrades@[k2].1 == ch[sl]);
            }
            assert forall|sl: usize| #[trigger] ch.contains_key(sl) implies ucm.contains_key(
                sl,
            ) by {
                let k = choose|k: int| 0 <= k < upgrades@.len() && (#[trigger] upgrades@[k]).0
                    == sl;
                assert(0 <= k < upgrades@.len() && upgrades@[k].0 == sl);
            }
            assert(ucm =~= ch);
        }
        Ok(IngestActions { new_columns, upgrades })
    }
}


/// The value an item supplies for column `c`: the first of its fields whose
/// identifier owns that column, if any.
pub open spec fn spec_first_value_for_column(
    fields: Seq<crate::data::ItemFieldV>,
    fslots: Map<crate::data::FieldID, usize>,
    c: usize,
) -> Option<FieldV>
    decreases fields.len(),
{
    if fields.len() == 0 {
        None
    } else {
        let p = spec_first_value_for_column(fields.subrange(0, fields.len() - 1), fslots, c);
        if p is Some {
            p
        } else {
            let last = fields[fields.len() - 1];
            if fslots.contains_key(last.id) && fslots[last.id] == c {
                Some(last.value)
            } else {
                None
            }
        }
    }
}

/// How many of an item's fields land in column `c`.
pub open spec fn spec_column_count(
    fields: Seq<crate::data::ItemFieldV>,
    fslots: Map<crate::data::FieldID, usize>,
    c: usize,
) -> nat
    decreases fields.len(),
{
    if fields.len() == 0 {
        0
    } else {
        spec_column_count(fields.subrange(0, fields.len() - 1), fslots, c) + {
            let last = fields[fields.len() - 1];
            if fslots.contains_key(last.id) && fslots[last.id] == c {
                1nat
            } else {
                0nat
            }
        }
    }
}

/// The mathematical value of an optional field.
pub open spec fn opt_field_dview(o: Option<crate::data::Field>) -> Option<FieldV> {
    match o {
        Some(f) => Some(f.dview()),
        None => None,
    }
}

impl SlotMetaTable {
    /// The column a field identifier owns, if the schema has seen it.
    pub fn column_of(&self, id: crate::data::FieldID) -> (r: Option<usize>)
        requires
            self.wf(),
        ensures
            match r {
                Some(c) => self.fslots().contains_key(id) && self.fslots()[id] == c && c
                    < self.sfields().len(),
                None => !self.fslots().contains_key(id),
            },
    {
        match self.field_slots.get(&id) {
            Some(c) => Some(*c),
            None => None,
        }
    }
}

/// The `items` row of one item: one value per column, the first value of a
/// field owning the column, `None` where the item has no such field — so
/// duplicate field identifiers keep their first value. Fields whose
/// identifier owns no column are dropped; schema inference rejects them
/// before rows are built.
pub fn item_row(item: &crate::data::ItemMeta, table: &SlotMetaTable) -> (r: Vec<
    Option<crate::data::Field>,
>)
    requires
        table.wf(),
    ensures
        r@.len() == table.sfields().len(),
        forall|c: int|
            0 <= c < r@.len() ==> opt_field_dview(#[trigger] r@[c]) == spec_first_value_for_column(
                item.dview().fields,
                table.fslots(),
                c as usize,
            ),
{
    let n = table.num_columns();
    let ghost fields_v = item.dview().fields;
    let mut r: Vec<Option<crate::data::Field>> = Vec::new();
    for _k in 0..n
        invariant
            r@.len() == _k,
            forall|c: int| 0 <= c < r@.len() ==> (#[trigger] r@[c]) is None,
    {
        r.push(None);
    }
    proof {
        assert(fields_v.subrange(0, 0) =~= Seq::<crate::data::ItemFieldV>::empty());
    }
    for i in 0..item.fields.len()
        invariant
            r@.len() == n,
            n == table.sfields().len(),
            table.wf(),
            fields_v == item.dview().fields,
            fields_v.len() == item.fields@.len(),
            forall|j: int|
                0 <= j < fields_v.len() ==> fields_v[j] == (#[trigger] item.fields@[j]).dview(),
            forall|c: int|
                0 <= c < r@.len() ==> opt_field_dview(#[trigger] r@[c])
                    == spec_first_value_for_column(
                    fields_v.subrange(0, i as int),
                    table.fslots(),
                    c as usize,
                ),
    {
        let ghost prefix = fields_v.subrange(0, i as int);
        let ghost cur = fields_v.subrange(0, i + 1);
        proof {
            assert(cur.subrange(0, cur.len() - 1) =~= prefix);
            assert(cur[cur.len() - 1] == fields_v[i as int]);
        }
        let crate::data::ItemField(id, value, _color) = &item.fields[i];
        match table.column_of(*id) {
            Some(c) => {
                let vacant = match &r[c] {
                    None => true,
                    Some(_) => false,
                };
                if vacant {
                    let ghost rpre = r@;
                    r.set(c, Some(value.clone()));
                    proof {
                        assert(fields_v[i as int].id == *id);
                        assert(fields_v[i as int].value == value.dview());
                        assert forall|cc: int|
                            0 <= cc < r@.len() implies opt_field_dview(#[trigger] r@[cc])
                            == spec_first_value_for_column(
                            cur,
                            table.fslots(),
                            cc as usize,
                        ) by {
                            if cc != c {
                                assert(r@[cc] == rpre[cc]);
                            }
                        }
                    }
                } else {
                    proof {
                        assert(fields_v[i as int].id == *id);
                    }
                }
            },
            None => {
                proof {
                    assert(fields_v[i as int].id == *id);
                }
            },
        }
    }
    proof {
        assert(fields_v.subrange(0, fields_v.len() as int) =~= fields_v);
    }
    r
}

/// The columns an item supplies more than one value for: their extra values
/// are dropped and each such column is reported once, for the caller's
/// warn-once record.
pub fn duplicate_column_slots(item: &crate::data::ItemMeta, table: &SlotMetaTable) -> (r: Vec<
    usize,
>)
    requires
        table.wf(),
        item.fields@.len() < u64::MAX,
    ensures
        forall|k: int|
            0 <= k < r@.len() ==> (#[trigger] r@[k]) < table.sfields().len() && spec_column_count(
                item.dview().fields,
                table.fslots(),
                r@[k],
            ) >= 2,
        forall|c: usize|
            c < table.sfields().len() && spec_column_count(
                item.dview().fields,
                table.fslots(),
                c,
            ) >= 2 ==> r@.contains(c),
        forall|k1: int, k2: int| 0 <= k1 < k2 < r@.len() ==> r@[k1] < r@[k2],
{
    let n = table.num_columns();
    let ghost fields_v = item.dview().fields;
    let mut counts: Vec<u64> = Vec::new();
    for _k in 0..n
        invariant
            counts@.len() == _k,
            forall|c: int| 0 <= c < counts@.len() ==> (#[trigger] counts@[c]) == 0,
    {
        counts.push(0);
    }
    proof {
        assert(fields_v.subrange(0, 0) =~= Seq::<crate::data::ItemFieldV>::empty());
    }
    for i in 0..item.fields.len()
        invariant
            counts@.len() == n,
            n == table.sfields().len(),
            table.wf(),
            fields_v == item.dview().fields,
            fields_v.len() == item.fields@.len(),
            item.fields@.len() < u64::MAX,
            forall|j: int|
                0 <= j < fields_v.len() ==> fields_v[j] == (#[trigger] item.fields@[j]).dview(),
            forall|c: int|
                0 <= c < counts@.len() ==> (#[trigger] counts@[c]) == spec_column_count(
                    fields_v.subrange(0, i as int),
                    table.fslots(),
                    c as usize,
                ),
            forall|c: int|
                0 <= c < counts@.len() ==> (#[trigger] counts@[c]) <= i,
    {
        let ghost prefix = fields_v.subrange(0, i as int);
        let ghost cur = fields_v.subrange(0, i + 1);
        proof {
            assert(cur.subrange(0, cur.len() - 1) =~= prefix);
            assert(cur[cur.len() - 1] == fields_v[i as int]);
        }
        let crate::data::ItemField(id, _value, _color) = &item.fields[i];
        match table.column_of(*id) {
            Some(c) => {
                let ghost cpre = counts@;
                let bumped = counts[c] + 1;
                counts.set(c, bumped);
                proof {
                    assert(fields_v[i as int].id == *id);
                    assert forall|cc: int|
                        0 <= cc < counts@.len() implies (#[trigger] counts@[cc])
                        == spec_column_count(cur, table.fslots(), cc as usize) by {
                        if cc != c {
                            assert(counts@[cc] == cpre[cc]);
                        }
                    }
                }
            },
            None => {
                proof {
                    assert(fields_v[i as int].id == *id);
                }
            },
        }
    }
    proof {
        assert(fields_v.subrange(0, fields_v.len() as int) =~= fields_v);
    }
    let mut r: Vec<usize> = Vec::new();
    for c in 0..n
        invariant
            counts@.len() == n,
            n == table.sfields().len(),
            forall|cc: int|
                0 <= cc < counts@.len() ==> (#[trigger] counts@[cc]) == spec_column_count(
                    fields_v,
                    table.fslots(),
                    cc as usize,
                ),
            fields_v == item.dview().fields,
            forall|k: int|
                0 <= k < r@.len() ==> (#[trigger] r@[k]) < c && spec_column_count(
                    fields_v,
                    table.fslots(),
                    r@[k],
                ) >= 2,
            forall|cc: usize|
                cc < c && spec_column_count(fields_v, table.fslots(), cc) >= 2 ==> r@.contains(
                    cc,
                ),
            forall|k1: int, k2: int| 0 <= k1 < k2 < r@.len() ==> r@[k1] < r@[k2],
    {
        let ghost rpre = r@;
        if counts[c] >= 2 {
            r.push(c);
            proof {
                assert forall|cc: usize|
                    cc < c + 1 && spec_column_count(fields_v, table.fslots(), cc)
                        >= 2 implies r@.contains(cc) by {
                    if cc < c {
                        assert(rpre.contains(cc));
                        let w = choose|w: int| 0 <= w < rpre.len() && rpre[w] == cc;
                        assert(r@[w] == cc);
                    } else {
                        assert(r@[r@.len() - 1] == cc);
                    }
                }
            }
        } else {
            proof {
                assert forall|cc: usize|
                    cc < c + 1 && spec_column_count(fields_v, table.fslots(), cc)
                        >= 2 implies r@.contains(cc) by {
                    if cc < c {
                        assert(rpre.contains(cc));
                        let w = choose|w: int| 0 <= w < rpre.len() && rpre[w] == cc;
                        assert(r@[w] == cc);
                    } else {
                        assert(counts@[c as int] < 2);
                    }
                }
            }
        }
    }
    r
}

/// The single `data_source` row's interval: start, stop, and the duration
/// they span.
pub fn interval_row(i: Interval) -> (r: (i64, i64, i64))
    requires
        i.wf(),
    ensures
        r.0 == i.start.0,
        r.1 == i.stop.0,
        r.2 == i.sduration(),
{
    (i.start.0, i.stop.0, i.stop.0 - i.start.0)
}

} // verus!
