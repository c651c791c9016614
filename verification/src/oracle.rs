//! The differential oracle: checking that an extract → wipe → restore cycle
//! preserves the cluster state that is supposed to survive it.
//!
//! A fuzz case that opts into this check sets up one input repository and one
//! pipeline copying every input file to its output, populates the input
//! through a decoded sub-sequence of writes and pipeline updates, then
//! records masked snapshots of commit metadata and job history, extracts the
//! whole cluster, wipes it, restores from the extracted records, and asserts
//! field-for-field equality of the masked snapshots — plus a byte-exact read
//! back of the tracked file against the last value the model saw written.
//!
//! Masking clears the volatile timestamps and sorts provenance lists, which
//! the round trip is allowed to reorder. The run-scoped write counter that
//! generates unique file contents is explicit state folded over the decoded
//! operations, so each case is independent and reproducible.

use vstd::multiset::Multiset;
use vstd::prelude::*;

use crate::classify::RpcCode;
use crate::ops::DecodeError;
use crate::ops::read_bool;
use crate::ops::read_byte;

verus! {

/// One populate-phase operation of an oracle case.
#[derive(Clone, Copy, Debug, PartialEq, Eq, Structural)]
pub enum OracleOp {
    /// Writes the tracked test file: a fresh counter value, or the corrupted
    /// sentinel, optionally flushing the input commit afterwards.
    PutFile { corrupted: bool, flush: bool },
    /// Updates the pipeline in place with the permissive transform.
    UpdatePipeline { stats: bool, reprocess: bool },
}

/// How an oracle case ends: extract only, or the full round trip.
#[derive(Clone, Copy, Debug, PartialEq, Eq, Structural)]
pub enum Outro {
    Extract { no_objects: bool, no_repos: bool, no_pipelines: bool },
    ExtractRestore { no_objects: bool },
}

/// One decoded oracle case.
pub struct OracleOptions {
    /// Whether writes target a staging head that is only later bound to the
    /// master branch.
    pub deferred: bool,
    /// The populate-phase operations.
    pub ops: Vec<OracleOp>,
    /// How the case ends.
    pub outro: Outro,
}

/// The mathematical model of an oracle case.
pub ghost struct OracleOptionsV {
    pub deferred: bool,
    pub ops: Seq<OracleOp>,
    pub outro: Outro,
}

impl View for OracleOptions {
    type V = OracleOptionsV;

    open spec fn view(&self) -> OracleOptionsV {
        OracleOptionsV { deferred: self.deferred, ops: self.ops@, outro: self.outro }
    }
}

/// Reads one populate-phase operation: a tag byte and two booleans.
pub open spec fn s_read_oracle_op(b: Seq<u8>) -> Result<(OracleOp, Seq<u8>), DecodeError> {
    match crate::ops::s_read_byte(b) {
        Err(e) => Err(e),
        Ok((tag, r)) => {
            if tag == 0 {
                match crate::ops::s_read_bool(r) {
                    Err(e) => Err(e),
                    Ok((corrupted, r2)) => match crate::ops::s_read_bool(r2) {
                        Err(e) => Err(e),
                        Ok((flush, r3)) => Ok((OracleOp::PutFile { corrupted, flush }, r3)),
                    },
                }
            } else if tag == 1 {
                match crate::ops::s_read_bool(r) {
                    Err(e) => Err(e),
                    Ok((stats, r2)) => match crate::ops::s_read_bool(r2) {
                        Err(e) => Err(e),
                        Ok((reprocess, r3)) => Ok((OracleOp::UpdatePipeline { stats, reprocess }, r3)),
                    },
                }
            } else {
                Err(DecodeError::IncorrectFormat)
            }
        },
    }
}

/// Reads the populate-phase operations, count first.
pub open spec fn s_read_oracle_ops(b: Seq<u8>, n: nat) -> Result<(Seq<OracleOp>, Seq<u8>), DecodeError>
    decreases n,
{
    if n == 0 {
        Ok((Seq::empty(), b))
    } else {
        match s_read_oracle_op(b) {
            Err(e) => Err(e),
            Ok((op, r)) => match s_read_oracle_ops(r, (n - 1) as nat) {
                Err(e) => Err(e),
                Ok((ops, r2)) => Ok((seq![op] + ops, r2)),
            },
        }
    }
}

/// Reads the outro: a tag byte and its flags.
pub open spec fn s_read_outro(b: Seq<u8>) -> Result<(Outro, Seq<u8>), DecodeError> {
    match crate::ops::s_read_byte(b) {
        Err(e) => Err(e),
        Ok((tag, r)) => {
            if tag == 0 {
                match crate::ops::s_read_bool(r) {
                    Err(e) => Err(e),
                    Ok((no_objects, r2)) => match crate::ops::s_read_bool(r2) {
                        Err(e) => Err(e),
                        Ok((no_repos, r3)) => match crate::ops::s_read_bool(r3) {
                            Err(e) => Err(e),
                            Ok((no_pipelines, r4)) => Ok(
                                (Outro::Extract { no_objects, no_repos, no_pipelines }, r4),
                            ),
                        },
                    },
                }
            } else if tag == 1 {
                match crate::ops::s_read_bool(r) {
                    Err(e) => Err(e),
                    Ok((no_objects, r2)) => Ok((Outro::ExtractRestore { no_objects }, r2)),
                }
            } else {
                Err(DecodeError::IncorrectFormat)
            }
        },
    }
}

/// Decodes a whole oracle case: the deferred flag, a non-empty counted list
/// of populate operations, the outro, and nothing after it. A case with no
/// operations carries nothing to check and is rejected as insufficient data.
pub open spec fn s_decode_oracle(b: Seq<u8>) -> Result<OracleOptionsV, DecodeError> {
    match crate::ops::s_read_bool(b) {
        Err(e) => Err(e),
        Ok((deferred, r)) => match crate::ops::s_read_byte(r) {
            Err(e) => Err(e),
            Ok((n, r2)) => {
                if n == 0 {
                    Err(DecodeError::InsufficientData)
                } else {
                    match s_read_oracle_ops(r2, n as nat) {
                        Err(e) => Err(e),
                        Ok((ops, r3)) => match s_read_outro(r3) {
                            Err(e) => Err(e),
                            Ok((outro, r4)) => {
                                if r4.len() == 0 {
                                    Ok(OracleOptionsV { deferred, ops, outro })
                                } else {
                                    Err(DecodeError::IncorrectFormat)
                                }
                            },
                        },
                    }
                }
            },
        },
    }
}

/// The run-scoped bookkeeping the oracle folds over the populate phase: how
/// many fresh values were written, whether any write happened at all, and
/// whether the last write was the corrupted sentinel.
pub ghost struct TraceV {
    pub counter: nat,
    pub inserted: bool,
    pub last_corrupted: bool,
}

/// Folds the populate operations into the run-scoped bookkeeping.
pub open spec fn s_trace(ops: Seq<OracleOp>) -> TraceV
    decreases ops.len(),
{
    if ops.len() == 0 {
        TraceV { counter: 0, inserted: false, last_corrupted: false }
    } else {
        let t = s_trace(ops.drop_last());
        match ops.last() {
            OracleOp::PutFile { corrupted, flush: _ } => {
                if corrupted {
                    TraceV { counter: t.counter, inserted: true, last_corrupted: true }
                } else {
                    TraceV { counter: t.counter + 1, inserted: true, last_corrupted: false }
                }
            },
            OracleOp::UpdatePipeline { .. } => t,
        }
    }
}

/// The decimal rendering of a number, as ASCII digit bytes with no leading
/// zeros (zero itself is one digit).
pub open spec fn dec_bytes(n: nat) -> Seq<u8>
    decreases n,
{
    if n < 10 {
        seq![(48 + n) as u8]
    } else {
        dec_bytes(n / 10).push((48 + n % 10) as u8)
    }
}

/// The corrupted sentinel the pipeline's transform refuses.
pub open spec fn corrupted_bytes() -> Seq<u8> {
    seq![99u8, 111u8, 114u8, 114u8, 117u8, 112u8, 116u8, 101u8, 100u8]
}

/// The bytes the model expects a post-restore read of the tracked file to
/// return: nothing if nothing was ever written, the corrupted sentinel if the
/// last write was corrupted, and otherwise the decimal rendering of the last
/// fresh counter value.
pub open spec fn s_expected_content(ops: Seq<OracleOp>) -> Option<Seq<u8>> {
    let t = s_trace(ops);
    if !t.inserted {
        None
    } else if t.last_corrupted {
        Some(corrupted_bytes())
    } else {
        Some(dec_bytes((t.counter - 1) as nat))
    }
}

/// After a populate phase whose last write was fresh, at least one fresh
/// value was written.
pub proof fn lemma_trace_counter(ops: Seq<OracleOp>)
    ensures
        s_trace(ops).inserted && !s_trace(ops).last_corrupted ==> s_trace(ops).counter >= 1,
    decreases ops.len(),
{
    if ops.len() > 0 {
        lemma_trace_counter(ops.drop_last());
    }
}

/// Renders a number as ASCII decimal digit bytes.
pub fn to_decimal(n: u64) -> (r: Vec<u8>)
    ensures
        r@ == dec_bytes(n as nat),
    decreases n,
{
    if n < 10 {
        let mut v: Vec<u8> = Vec::new();
        v.push(48 + (n as u8));
        proof {
            assert(v@ =~= dec_bytes(n as nat));
        }
        v
    } else {
        let mut v = to_decimal(n / 10);
        v.push(48 + ((n % 10) as u8));
        proof {
            assert(v@ =~= dec_bytes(n as nat));
        }
        v
    }
}

/// Computes the run-scoped bookkeeping for a populate phase: the number of
/// fresh values written, whether anything was written, and whether the last
/// write was corrupted.
pub fn trace_of(ops: &Vec<OracleOp>) -> (r: (u64, bool, bool))
    ensures
        r.0 == s_trace(ops@).counter,
        r.1 == s_trace(ops@).inserted,
        r.2 == s_trace(ops@).last_corrupted,
{
    let mut counter: u64 = 0;
    let mut inserted = false;
    let mut last_corrupted = false;
    let mut i: usize = 0;
    proof {
        assert(ops@.subrange(0, 0) =~= Seq::<OracleOp>::empty());
    }
    while i < ops.len()
        invariant
            i <= ops@.len(),
            counter == s_trace(ops@.subrange(0, i as int)).counter,
            inserted == s_trace(ops@.subrange(0, i as int)).inserted,
            last_corrupted == s_trace(ops@.subrange(0, i as int)).last_corrupted,
            counter <= i,
        decreases ops@.len() - i,
    {
        proof {
            assert(ops@.subrange(0, i as int + 1).drop_last() =~= ops@.subrange(0, i as int));
            assert(ops@.subrange(0, i as int + 1).last() == ops@[i as int]);
        }
        match ops[i] {
            OracleOp::PutFile { corrupted, flush: _ } => {
                if corrupted {
                    inserted = true;
                    last_corrupted = true;
                } else {
                    counter = counter + 1;
                    inserted = true;
                    last_corrupted = false;
                }
            },
            OracleOp::UpdatePipeline { .. } => {},
        }
        i = i + 1;
    }
    proof {
        assert(ops@.subrange(0, ops@.len() as int) =~= ops@);
    }
    (counter, inserted, last_corrupted)
}

/// Computes the expected post-restore content of the tracked file.
pub fn expected_content(ops: &Vec<OracleOp>) -> (r: Option<Vec<u8>>)
    ensures
        match r {
            Some(v) => s_expected_content(ops@) == Some(v@),
            None => s_expected_content(ops@) is None,
        },
{
    let (counter, inserted, last_corrupted) = trace_of(ops);
    if !inserted {
        None
    } else if last_corrupted {
        let mut v: Vec<u8> = Vec::new();
        v.push(99);
        v.push(111);
        v.push(114);
        v.push(114);
        v.push(117);
        v.push(112);
        v.push(116);
        v.push(101);
        v.push(100);
        proof {
            assert(v@ =~= corrupted_bytes());
        }
        Some(v)
    } else {
        proof {
            lemma_trace_counter(ops@);
        }
        Some(to_decimal(counter - 1))
    }
}

fn read_oracle_op(input: &Vec<u8>, pos: usize) -> (r: Result<(OracleOp, usize), DecodeError>)
    requires
        pos <= input@.len(),
    ensures
        match r {
            Ok((op, p2)) => s_read_oracle_op(input@.skip(pos as int)) == Ok::<_, DecodeError>(
                (op, input@.skip(p2 as int)),
            ) && pos < p2 <= input@.len(),
            Err(e) => s_read_oracle_op(input@.skip(pos as int)) == Err::<
                (OracleOp, Seq<u8>),
                _,
            >(e),
        },
{
    let (tag, p1) = match read_byte(input, pos) {
        Ok(v) => v,
        Err(e) => {
            return Err(e);
        },
    };
    if tag == 0 {
        match read_bool(input, p1) {
            Err(e) => Err(e),
            Ok((corrupted, p2)) => match read_bool(input, p2) {
                Err(e) => Err(e),
                Ok((flush, p3)) => Ok((OracleOp::PutFile { corrupted, flush }, p3)),
            },
        }
    } else if tag == 1 {
        match read_bool(input, p1) {
            Err(e) => Err(e),
            Ok((stats, p2)) => match read_bool(input, p2) {
                Err(e) => Err(e),
                Ok((reprocess, p3)) => Ok((OracleOp::UpdatePipeline { stats, reprocess }, p3)),
            },
        }
    } else {
        Err(DecodeError::IncorrectFormat)
    }
}

fn read_outro(input: &Vec<u8>, pos: usize) -> (r: Result<(Outro, usize), DecodeError>)
    requires
        pos <= input@.len(),
    ensures
        match r {
            Ok((o, p2)) => s_read_outro(input@.skip(pos as int)) == Ok::<_, DecodeError>(
                (o, input@.skip(p2 as int)),
            ) && pos < p2 <= input@.len(),
            Err(e) => s_read_outro(input@.skip(pos as int)) == Err::<(Outro, Seq<u8>), _>(e),
        },
{
    let (tag, p1) = match read_byte(input, pos) {
        Ok(v) => v,
        Err(e) => {
            return Err(e);
        },
    };
    if tag == 0 {
        match read_bool(input, p1) {
            Err(e) => Err(e),
            Ok((no_objects, p2)) => match read_bool(input, p2) {
                Err(e) => Err(e),
                Ok((no_repos, p3)) => match read_bool(input, p3) {
                    Err(e) => Err(e),
                    Ok((no_pipelines, p4)) => Ok(
                        (Outro::Extract { no_objects, no_repos, no_pipelines }, p4),
                    ),
                },
            },
        }
    } else if tag == 1 {
        match read_bool(input, p1) {
            Err(e) => Err(e),
            Ok((no_objects, p2)) => Ok((Outro::ExtractRestore { no_objects }, p2)),
        }
    } else {
        Err(DecodeError::IncorrectFormat)
    }
}

/// Decodes a whole oracle case from raw fuzz bytes.
pub fn decode_oracle(input: &Vec<u8>) -> (r: Result<OracleOptions, DecodeError>)
    ensures
        match r {
            Ok(opts) => s_decode_oracle(input@) == Ok::<_, DecodeError>(opts@) && opts.ops@.len()
                > 0,
            Err(e) => s_decode_oracle(input@) == Err::<OracleOptionsV, _>(e),
        },
{
    proof {
        assert(input@.skip(0) =~= input@);
    }
    let (deferred, p1) = match read_bool(input, 0) {
        Ok(v) => v,
        Err(e) => {
            return Err(e);
        },
    };
    let (n, p2) = match read_byte(input, p1) {
        Ok(v) => v,
        Err(e) => {
            return Err(e);
        },
    };
    if n == 0 {
        return Err(DecodeError::InsufficientData);
    }
    let mut ops: Vec<OracleOp> = Vec::new();
    let mut pos: usize = p2;
    let mut left: usize = n as usize;
    while left > 0
        invariant
            pos <= input@.len(),
            p1 <= input@.len(),
            p2 <= input@.len(),
            n != 0,
            crate::ops::s_read_bool(input@) == Ok::<_, DecodeError>(
                (deferred, input@.skip(p1 as int)),
            ),
            crate::ops::s_read_byte(input@.skip(p1 as int)) == Ok::<_, DecodeError>(
                (n, input@.skip(p2 as int)),
            ),
            ops@.len() + left == n,
            match s_read_oracle_ops(input@.skip(pos as int), left as nat) {
                Ok((tail, rest)) => s_read_oracle_ops(input@.skip(p2 as int), n as nat)
                    == Ok::<_, DecodeError>((ops@ + tail, rest)),
                Err(e) => s_read_oracle_ops(input@.skip(p2 as int), n as nat) == Err::<
                    (Seq<OracleOp>, Seq<u8>),
                    _,
                >(e),
            },
        decreases left,
    {
        match read_oracle_op(input, pos) {
            Err(e) => {
                return Err(e);
            },
            Ok((op, p3)) => {
                proof {
                    match s_read_oracle_ops(input@.skip(p3 as int), (left - 1) as nat) {
                        Ok((tail2, _rest)) => {
                            assert(ops@ + (seq![op] + tail2) =~= ops@.push(op) + tail2);
                        },
                        Err(_) => {},
                    }
                }
                ops.push(op);
                pos = p3;
                left = left - 1;
            },
        }
    }
    proof {
        assert(s_read_oracle_ops(input@.skip(pos as int), 0) == Ok::<_, DecodeError>(
            (Seq::<OracleOp>::empty(), input@.skip(pos as int)),
        ));
        assert(ops@ + Seq::<OracleOp>::empty() =~= ops@);
    }
    let (outro, p4) = match read_outro(input, pos) {
        Ok(v) => v,
        Err(e) => {
            return Err(e);
        },
    };
    if p4 != input.len() {
        proof {
            assert(input@.skip(p4 as int).len() > 0);
        }
        return Err(DecodeError::IncorrectFormat);
    }
    proof {
        assert(input@.skip(p4 as int).len() == 0);
    }
    Ok(OracleOptions { deferred, ops, outro })
}

/// The views of a list of byte vectors.
pub open spec fn views_of(s: Seq<Vec<u8>>) -> Seq<Seq<u8>> {
    s.map_values(|v: Vec<u8>| v@)
}

/// Lexicographic order on byte strings, with a prefix ordered before its
/// extensions.
pub open spec fn lex_le(a: Seq<u8>, b: Seq<u8>) -> bool
    decreases a.len(),
{
    if a.len() == 0 {
        true
    } else if b.len() == 0 {
        false
    } else if a[0] < b[0] {
        true
    } else if a[0] > b[0] {
        false
    } else {
        lex_le(a.skip(1), b.skip(1))
    }
}

/// Inserting a byte string into a lexicographically sorted list, before the
/// first entry it is ordered no later than.
pub open spec fn insert_sorted(x: Seq<u8>, s: Seq<Seq<u8>>) -> Seq<Seq<u8>>
    decreases s.len(),
{
    if s.len() == 0 {
        seq![x]
    } else if lex_le(x, s[0]) {
        seq![x] + s
    } else {
        seq![s[0]] + insert_sorted(x, s.skip(1))
    }
}

/// The lexicographically sorted version of a list of byte strings: the stable
/// key under which round-trip reordering of unordered collections is
/// cancelled before comparison.
pub open spec fn sort_lex(s: Seq<Seq<u8>>) -> Seq<Seq<u8>>
    decreases s.len(),
{
    if s.len() == 0 {
        s
    } else {
        insert_sorted(s[0], sort_lex(s.skip(1)))
    }
}

/// Insertion keeps exactly the entries it was given, plus the new one.
pub proof fn lemma_insert_sorted_multiset(x: Seq<u8>, s: Seq<Seq<u8>>)
    ensures
        insert_sorted(x, s).to_multiset() == s.to_multiset().insert(x),
    decreases s.len(),
{
    broadcast use vstd::seq_lib::group_to_multiset_ensures;

    if s.len() == 0 {
        assert(seq![x] =~= Seq::<Seq<u8>>::empty().push(x));
        assert(seq![x].to_multiset() =~= s.to_multiset().insert(x));
    } else if lex_le(x, s[0]) {
        vstd::seq_lib::lemma_multiset_commutative(seq![x], s);
        assert(seq![x].to_multiset() =~= Multiset::<Seq<u8>>::empty().insert(x)) by {
            assert(seq![x] =~= Seq::<Seq<u8>>::empty().push(x));
        }
        assert((seq![x] + s).to_multiset() =~= s.to_multiset().insert(x));
    } else {
        lemma_insert_sorted_multiset(x, s.skip(1));
        vstd::seq_lib::lemma_multiset_commutative(seq![s[0]], insert_sorted(x, s.skip(1)));
        vstd::seq_lib::lemma_multiset_commutative(seq![s[0]], s.skip(1));
        assert(seq![s[0]] + s.skip(1) =~= s);
        assert(seq![s[0]].to_multiset() =~= Multiset::<Seq<u8>>::empty().insert(s[0])) by {
            assert(seq![s[0]] =~= Seq::<Seq<u8>>::empty().push(s[0]));
        }
        assert((seq![s[0]] + insert_sorted(x, s.skip(1))).to_multiset() =~= s.to_multiset().insert(
            x,
        ));
    }
}

/// Sorting the provenance list reorders it and nothing more: the sorted list
/// holds exactly the entries it was given.
pub proof fn lemma_sort_lex_permutes(s: Seq<Seq<u8>>)
    ensures
        sort_lex(s).to_multiset() == s.to_multiset(),
    decreases s.len(),
{
    broadcast use vstd::seq_lib::group_to_multiset_ensures;

    if s.len() > 0 {
        lemma_sort_lex_permutes(s.skip(1));
        lemma_insert_sorted_multiset(s[0], sort_lex(s.skip(1)));
        vstd::seq_lib::lemma_multiset_commutative(seq![s[0]], s.skip(1));
        assert(seq![s[0]] + s.skip(1) =~= s);
        assert(seq![s[0]].to_multiset() =~= Multiset::<Seq<u8>>::empty().insert(s[0])) by {
            assert(seq![s[0]] =~= Seq::<Seq<u8>>::empty().push(s[0]));
        }
        assert(sort_lex(s).to_multiset() =~= s.to_multiset());
    }
}

/// Lexicographic order is total.
proof fn lemma_lex_le_total(a: Seq<u8>, b: Seq<u8>)
    ensures
        lex_le(a, b) || lex_le(b, a),
    decreases a.len(),
{
    if a.len() > 0 && b.len() > 0 && a[0] == b[0] {
        lemma_lex_le_total(a.skip(1), b.skip(1));
    }
}

/// Lexicographic order is antisymmetric.
proof fn lemma_lex_le_antisymm(a: Seq<u8>, b: Seq<u8>)
    requires
        lex_le(a, b),
        lex_le(b, a),
    ensures
        a == b,
    decreases a.len(),
{
    if a.len() == 0 {
        assert(b.len() == 0);
        assert(a =~= b);
    } else {
        assert(b.len() > 0);
        assert(a[0] == b[0]);
        lemma_lex_le_antisymm(a.skip(1), b.skip(1));
        assert(a =~= b) by {
            assert(forall|i: int| 1 <= i < a.len() ==> a[i] == a.skip(1)[i - 1]);
            assert(forall|i: int| 1 <= i < b.len() ==> b[i] == b.skip(1)[i - 1]);
        }
    }
}

/// Lexicographic order is transitive.
proof fn lemma_lex_le_trans(a: Seq<u8>, b: Seq<u8>, c: Seq<u8>)
    requires
        lex_le(a, b),
        lex_le(b, c),
    ensures
        lex_le(a, c),
    decreases a.len(),
{
    if a.len() > 0 && b.len() > 0 && c.len() > 0 && a[0] == b[0] && b[0] == c[0] {
        lemma_lex_le_trans(a.skip(1), b.skip(1), c.skip(1));
    }
}

/// Whether a list of byte strings is in lexicographic order.
pub open spec fn sorted_lex(s: Seq<Seq<u8>>) -> bool {
    forall|i: int, j: int|
        #![trigger s[i], s[j]]
        0 <= i <= j < s.len() ==> lex_le(s[i], s[j])
}

/// Insertion into a sorted list keeps it sorted.
proof fn lemma_insert_sorted_sorted(x: Seq<u8>, s: Seq<Seq<u8>>)
    requires
        sorted_lex(s),
    ensures
        sorted_lex(insert_sorted(x, s)),
    decreases s.len(),
{
    broadcast use vstd::seq_lib::group_to_multiset_ensures;

    if s.len() == 0 {
        lemma_lex_le_total(x, x);
    } else if lex_le(x, s[0]) {
        let r = seq![x] + s;
        assert forall|i: int, j: int|
            #![trigger r[i], r[j]]
            0 <= i <= j < r.len() implies lex_le(r[i], r[j]) by {
            if i == 0 {
                if j == 0 {
                    lemma_lex_le_total(x, x);
                } else {
                    assert(r[j] == s[j - 1]);
                    lemma_lex_le_trans(x, s[0], s[j - 1]);
                }
            } else {
                assert(r[i] == s[i - 1]);
                assert(r[j] == s[j - 1]);
            }
        }
    } else {
        lemma_lex_le_total(x, s[0]);
        assert(sorted_lex(s.skip(1))) by {
            assert(forall|i: int| 0 <= i < s.skip(1).len() ==> s.skip(1)[i] == s[i + 1]);
        }
        lemma_insert_sorted_sorted(x, s.skip(1));
        lemma_insert_sorted_multiset(x, s.skip(1));
        let r2 = insert_sorted(x, s.skip(1));
        let r = seq![s[0]] + r2;
        assert forall|i: int, j: int|
            #![trigger r[i], r[j]]
            0 <= i <= j < r.len() implies lex_le(r[i], r[j]) by {
            if i == 0 {
                lemma_lex_le_total(s[0], s[0]);
                if j > 0 {
                    let y = r2[j - 1];
                    assert(r[j] == y);
                    assert(r2.to_multiset().count(y) > 0);
                    assert(r2.to_multiset() == s.skip(1).to_multiset().insert(x));
                    if y == x {
                        assert(lex_le(s[0], x));
                    } else {
                        assert(s.skip(1).to_multiset().count(y) > 0);
                        assert(s.skip(1).contains(y));
                        let k = choose|k: int| 0 <= k < s.skip(1).len() && s.skip(1)[k] == y;
                        assert(s[k + 1] == y);
                        assert(lex_le(s[0], s[k + 1]));
                    }
                }
            } else {
                assert(r[i] == r2[i - 1]);
                assert(r[j] == r2[j - 1]);
            }
        }
    }
}

/// Sorting yields a sorted list.
pub proof fn lemma_sort_lex_sorted(s: Seq<Seq<u8>>)
    ensures
        sorted_lex(sort_lex(s)),
    decreases s.len(),
{
    if s.len() > 0 {
        lemma_sort_lex_sorted(s.skip(1));
        lemma_insert_sorted_sorted(s[0], sort_lex(s.skip(1)));
    }
}

/// Two sorted lists holding the same entries are the same list.
proof fn lemma_sorted_unique(a: Seq<Seq<u8>>, b: Seq<Seq<u8>>)
    requires
        sorted_lex(a),
        sorted_lex(b),
        a.to_multiset() == b.to_multiset(),
    ensures
        a == b,
    decreases a.len(),
{
    broadcast use vstd::seq_lib::group_to_multiset_ensures;

    assert(a.to_multiset().len() == a.len());
    assert(b.to_multiset().len() == b.len());
    if a.len() == 0 {
        assert(a =~= b);
    } else {
        assert(b.len() > 0);
        assert(a.contains(a[0]));
        assert(b.to_multiset().count(a[0]) > 0);
        assert(b.contains(a[0]));
        let j = choose|j: int| 0 <= j < b.len() && b[j] == a[0];
        assert(lex_le(b[0], a[0]));
        assert(a.contains(b[0])) by {
            assert(b.contains(b[0]));
            assert(a.to_multiset().count(b[0]) > 0);
        }
        let k = choose|k: int| 0 <= k < a.len() && a[k] == b[0];
        assert(lex_le(a[0], b[0]));
        lemma_lex_le_antisymm(a[0], b[0]);
        let a2 = a.remove(0);
        let b2 = b.remove(0);
        assert(a2.to_multiset() == a.to_multiset().remove(a[0]));
        assert(b2.to_multiset() == b.to_multiset().remove(b[0]));
        assert(sorted_lex(a2)) by {
            assert(forall|i: int| 0 <= i < a2.len() ==> a2[i] == a[i + 1]);
        }
        assert(sorted_lex(b2)) by {
            assert(forall|i: int| 0 <= i < b2.len() ==> b2[i] == b[i + 1]);
        }
        lemma_sorted_unique(a2, b2);
        assert(a =~= b) by {
            assert(forall|i: int| 1 <= i < a.len() ==> a[i] == a2[i - 1]);
            assert(forall|i: int| 1 <= i < b.len() ==> b[i] == b2[i - 1]);
        }
    }
}

/// Masking is insensitive to provenance order: two commit inspections whose
/// stable fields agree and whose provenance lists hold the same entries in
/// any order mask to the same value, whatever their timestamps were.
pub proof fn lemma_mask_order_insensitive(c1: CommitMetaV, c2: CommitMetaV)
    requires
        c1.repo == c2.repo,
        c1.id == c2.id,
        c1.size_bytes == c2.size_bytes,
        c1.provenance.to_multiset() == c2.provenance.to_multiset(),
    ensures
        s_mask_commit(c1) == s_mask_commit(c2),
{
    lemma_sort_lex_permutes(c1.provenance);
    lemma_sort_lex_permutes(c2.provenance);
    lemma_sort_lex_sorted(c1.provenance);
    lemma_sort_lex_sorted(c2.provenance);
    lemma_sorted_unique(sort_lex(c1.provenance), sort_lex(c2.provenance));
    assert(s_mask_commit(c1) =~~= s_mask_commit(c2));
}

/// Where the first entry ordered no earlier than `x` sits, insertion lands
/// there.
proof fn lemma_insert_sorted_at(x: Seq<u8>, s: Seq<Seq<u8>>, idx: int)
    requires
        0 <= idx <= s.len(),
        forall|m: int| 0 <= m < idx ==> !lex_le(x, #[trigger] s[m]),
        idx < s.len() ==> lex_le(x, s[idx]),
    ensures
        insert_sorted(x, s) == s.subrange(0, idx) + seq![x] + s.skip(idx),
    decreases idx,
{
    if idx == 0 {
        if s.len() == 0 {
            assert(insert_sorted(x, s) =~= s.subrange(0, 0) + seq![x] + s.skip(0));
        } else {
            assert(insert_sorted(x, s) =~= s.subrange(0, 0) + seq![x] + s.skip(0));
        }
    } else {
        assert(!lex_le(x, s[0]));
        let tail = s.skip(1);
        assert forall|m: int| 0 <= m < idx - 1 implies !lex_le(x, #[trigger] tail[m]) by {
            assert(tail[m] == s[m + 1]);
        }
        assert(idx - 1 < tail.len() ==> lex_le(x, tail[idx - 1]));
        lemma_insert_sorted_at(x, tail, idx - 1);
        assert(seq![s[0]] + (tail.subrange(0, idx - 1) + seq![x] + tail.skip(idx - 1)) =~= s
            .subrange(0, idx) + seq![x] + s.skip(idx));
    }
}

/// Whether one byte string is ordered no later than another.
pub fn lex_le_bytes(a: &Vec<u8>, b: &Vec<u8>) -> (r: bool)
    ensures
        r == lex_le(a@, b@),
{
    let mut i: usize = 0;
    proof {
        assert(a@.skip(0) =~= a@);
        assert(b@.skip(0) =~= b@);
    }
    while i < a.len() && i < b.len()
        invariant
            i <= a@.len(),
            i <= b@.len(),
            lex_le(a@, b@) == lex_le(a@.skip(i as int), b@.skip(i as int)),
        decreases a@.len() - i,
    {
        proof {
            assert(a@.skip(i as int)[0] == a@[i as int]);
            assert(b@.skip(i as int)[0] == b@[i as int]);
            assert(a@.skip(i as int).skip(1) =~= a@.skip(i as int + 1));
            assert(b@.skip(i as int).skip(1) =~= b@.skip(i as int + 1));
        }
        if a[i] < b[i] {
            return true;
        }
        if a[i] > b[i] {
            return false;
        }
        i = i + 1;
    }
    proof {
        if i >= a@.len() {
            assert(a@.skip(i as int).len() == 0);
        } else {
            assert(b@.skip(i as int).len() == 0);
            assert(a@.skip(i as int).len() > 0);
        }
    }
    i >= a.len()
}

/// Finds where a byte string belongs in a sorted list: the first entry it is
/// ordered no later than.
fn lower_bound(x: &Vec<u8>, v: &Vec<Vec<u8>>) -> (idx: usize)
    ensures
        idx <= v@.len(),
        forall|m: int| 0 <= m < idx ==> !lex_le(x@, #[trigger] views_of(v@)[m]),
        idx < v@.len() ==> lex_le(x@, views_of(v@)[idx as int]),
{
    let mut i: usize = 0;
    while i < v.len()
        invariant
            i <= v@.len(),
            forall|m: int| 0 <= m < i ==> !lex_le(x@, #[trigger] views_of(v@)[m]),
        decreases v@.len() - i,
    {
        proof {
            assert(views_of(v@)[i as int] == v@[i as int]@);
        }
        if lex_le_bytes(x, &v[i]) {
            return i;
        }
        i = i + 1;
    }
    i
}

/// Inserts a byte string into a sorted list of byte strings.
fn insert_sorted_vec(x: Vec<u8>, v: &mut Vec<Vec<u8>>)
    ensures
        views_of(final(v)@) == insert_sorted(x@, views_of(old(v)@)),
{
    let idx = lower_bound(&x, v);
    proof {
        lemma_insert_sorted_at(x@, views_of(v@), idx as int);
    }
    v.insert(idx, x);
    proof {
        assert(views_of(final(v)@) =~= views_of(old(v)@).subrange(0, idx as int) + seq![x@]
            + views_of(old(v)@).skip(idx as int));
    }
}

/// Returns the lexicographically sorted copy of a list of byte strings.
pub fn sort_bytes_list(src: &Vec<Vec<u8>>) -> (r: Vec<Vec<u8>>)
    ensures
        views_of(r@) == sort_lex(views_of(src@)),
{
    let mut acc: Vec<Vec<u8>> = Vec::new();
    let mut i: usize = src.len();
    proof {
        assert(views_of(src@.subrange(i as int, src@.len() as int)) =~= Seq::<Seq<u8>>::empty());
        assert(views_of(acc@) =~= Seq::<Seq<u8>>::empty());
        assert(sort_lex(views_of(src@.subrange(i as int, src@.len() as int))) =~= views_of(acc@));
    }
    while i > 0
        invariant
            i <= src@.len(),
            views_of(acc@) == sort_lex(views_of(src@.subrange(i as int, src@.len() as int))),
        decreases i,
    {
        proof {
            let whole = views_of(src@.subrange(i as int - 1, src@.len() as int));
            assert(whole[0] == src@[i as int - 1]@);
            assert(whole.skip(1) =~= views_of(src@.subrange(i as int, src@.len() as int)));
        }
        let x = crate::name::dup_bytes(&src[i - 1]);
        insert_sorted_vec(x, &mut acc);
        i = i - 1;
    }
    proof {
        assert(src@.subrange(0, src@.len() as int) =~= src@);
    }
    acc
}

/// The masked metadata of one commit: where it lives, its identity, its
/// size, the volatile timestamps, and its provenance.
pub struct CommitMeta {
    /// The repo the commit belongs to.
    pub repo: Vec<u8>,
    /// The commit or branch identifier.
    pub id: Vec<u8>,
    /// When the commit was started; volatile across extract/restore.
    pub started: Option<u64>,
    /// When the commit was finished; volatile across extract/restore.
    pub finished: Option<u64>,
    /// The commit's recorded size.
    pub size_bytes: u64,
    /// The identifiers of the commits this one derives from; the round trip
    /// may reorder them.
    pub provenance: Vec<Vec<u8>>,
}

/// The mathematical model of commit metadata.
#[verifier::ext_equal]
pub ghost struct CommitMetaV {
    pub repo: Seq<u8>,
    pub id: Seq<u8>,
    pub started: Option<u64>,
    pub finished: Option<u64>,
    pub size_bytes: u64,
    pub provenance: Seq<Seq<u8>>,
}

impl View for CommitMeta {
    type V = CommitMetaV;

    open spec fn view(&self) -> CommitMetaV {
        CommitMetaV {
            repo: self.repo@,
            id: self.id@,
            started: self.started,
            finished: self.finished,
            size_bytes: self.size_bytes,
            provenance: views_of(self.provenance@),
        }
    }
}

/// One job of the pipeline's history.
pub struct JobMeta {
    /// The job's identifier.
    pub id: Vec<u8>,
    /// The pipeline the job belongs to.
    pub pipeline: Vec<u8>,
    /// The job's recorded state code.
    pub state: u64,
    /// When the job started; volatile across extract/restore.
    pub started: Option<u64>,
    /// When the job finished; volatile across extract/restore.
    pub finished: Option<u64>,
}

/// The mathematical model of one job.
#[verifier::ext_equal]
pub ghost struct JobMetaV {
    pub id: Seq<u8>,
    pub pipeline: Seq<u8>,
    pub state: u64,
    pub started: Option<u64>,
    pub finished: Option<u64>,
}

impl View for JobMeta {
    type V = JobMetaV;

    open spec fn view(&self) -> JobMetaV {
        JobMetaV {
            id: self.id@,
            pipeline: self.pipeline@,
            state: self.state,
            started: self.started,
            finished: self.finished,
        }
    }
}

/// Everything recorded on one side of the round trip: the input and output
/// head commit metadata and the job history, each as the call returned it
/// (an error code stands for a failed inspection and must match exactly).
pub struct Snapshot {
    pub input_commit: Result<CommitMeta, RpcCode>,
    pub output_commit: Result<CommitMeta, RpcCode>,
    pub jobs: Result<Vec<JobMeta>, RpcCode>,
}

/// The mathematical model of a snapshot.
#[verifier::ext_equal]
pub ghost struct SnapshotV {
    pub input_commit: Result<CommitMetaV, RpcCode>,
    pub output_commit: Result<CommitMetaV, RpcCode>,
    pub jobs: Result<Seq<JobMetaV>, RpcCode>,
}

impl View for Snapshot {
    type V = SnapshotV;

    open spec fn view(&self) -> SnapshotV {
        SnapshotV {
            input_commit: match &self.input_commit {
                Ok(c) => Ok(c@),
                Err(e) => Err(*e),
            },
            output_commit: match &self.output_commit {
                Ok(c) => Ok(c@),
                Err(e) => Err(*e),
            },
            jobs: match &self.jobs {
                Ok(js) => Ok(js@.map_values(|j: JobMeta| j@)),
                Err(e) => Err(*e),
            },
        }
    }
}

/// Masking commit metadata for comparison: the volatile timestamps are
/// cleared and the provenance list is put in its sorted order, since the
/// round trip may legitimately reorder it.
pub open spec fn s_mask_commit(c: CommitMetaV) -> CommitMetaV {
    CommitMetaV {
        repo: c.repo,
        id: c.id,
        started: None,
        finished: None,
        size_bytes: c.size_bytes,
        provenance: sort_lex(c.provenance),
    }
}

/// Masking an inspection outcome: a failed inspection is compared by its
/// error code.
pub open spec fn s_mask_commit_result(r: Result<CommitMetaV, RpcCode>) -> Result<
    CommitMetaV,
    RpcCode,
> {
    match r {
        Ok(c) => Ok(s_mask_commit(c)),
        Err(e) => Err(e),
    }
}

/// Masking one job for comparison: the volatile timestamps are cleared.
pub open spec fn s_mask_job(j: JobMetaV) -> JobMetaV {
    JobMetaV { id: j.id, pipeline: j.pipeline, state: j.state, started: None, finished: None }
}

/// Masking a job-history outcome.
pub open spec fn s_mask_jobs_result(r: Result<Seq<JobMetaV>, RpcCode>) -> Result<
    Seq<JobMetaV>,
    RpcCode,
> {
    match r {
        Ok(js) => Ok(js.map_values(|j: JobMetaV| s_mask_job(j))),
        Err(e) => Err(e),
    }
}

/// Whether two byte vectors hold the same bytes.
pub fn bytes_eq(a: &Vec<u8>, b: &Vec<u8>) -> (r: bool)
    ensures
        r == (a@ == b@),
{
    if a.len() != b.len() {
        return false;
    }
    let mut i: usize = 0;
    while i < a.len()
        invariant
            i <= a@.len(),
            a@.len() == b@.len(),
            forall|k: int| 0 <= k < i ==> a@[k] == b@[k],
        decreases a@.len() - i,
    {
        if a[i] != b[i] {
            return false;
        }
        i = i + 1;
    }
    proof {
        assert(a@ =~= b@);
    }
    true
}

/// Whether two lists of byte vectors hold the same byte strings in the same
/// order.
fn bytes_list_eq(a: &Vec<Vec<u8>>, b: &Vec<Vec<u8>>) -> (r: bool)
    ensures
        r == (views_of(a@) == views_of(b@)),
{
    if a.len() != b.len() {
        proof {
            assert(views_of(a@).len() != views_of(b@).len());
        }
        return false;
    }
    let mut i: usize = 0;
    while i < a.len()
        invariant
            i <= a@.len(),
            a@.len() == b@.len(),
            forall|k: int| 0 <= k < i ==> #[trigger] views_of(a@)[k] == views_of(b@)[k],
        decreases a@.len() - i,
    {
        proof {
            assert(views_of(a@)[i as int] == a@[i as int]@);
            assert(views_of(b@)[i as int] == b@[i as int]@);
        }
        if !bytes_eq(&a[i], &b[i]) {
            return false;
        }
        i = i + 1;
    }
    proof {
        assert(views_of(a@) =~= views_of(b@));
    }
    true
}

/// Whether two commit inspections agree after masking: same location and
/// identity, same size, and the same provenance up to the allowed
/// reordering — or the same error code.
pub fn commits_agree(a: &Result<CommitMeta, RpcCode>, b: &Result<CommitMeta, RpcCode>) -> (r: bool)
    ensures
        r == (s_mask_commit_result(
            match a {
                Ok(c) => Ok::<CommitMetaV, RpcCode>(c@),
                Err(e) => Err(*e),
            },
        ) == s_mask_commit_result(
            match b {
                Ok(c) => Ok::<CommitMetaV, RpcCode>(c@),
                Err(e) => Err(*e),
            },
        )),
{
    match (a, b) {
        (Ok(ca), Ok(cb)) => {
            let pa = sort_bytes_list(&ca.provenance);
            let pb = sort_bytes_list(&cb.provenance);
            let r = bytes_eq(&ca.repo, &cb.repo) && bytes_eq(&ca.id, &cb.id) && ca.size_bytes
                == cb.size_bytes && bytes_list_eq(&pa, &pb);
            proof {
                if r {
                    assert(s_mask_commit(ca@) =~~= s_mask_commit(cb@));
                }
            }
            r
        },
        (Err(ea), Err(eb)) => *ea == *eb,
        _ => false,
    }
}

/// Whether two job histories agree after masking: the same jobs, in order,
/// compared without their volatile timestamps — or the same error code.
#[verifier::loop_isolation(false)]
pub fn jobs_agree(a: &Result<Vec<JobMeta>, RpcCode>, b: &Result<Vec<JobMeta>, RpcCode>) -> (r: bool)
    ensures
        r == (s_mask_jobs_result(
            match a {
                Ok(js) => Ok::<Seq<JobMetaV>, RpcCode>(js@.map_values(|j: JobMeta| j@)),
                Err(e) => Err(*e),
            },
        ) == s_mask_jobs_result(
            match b {
                Ok(js) => Ok::<Seq<JobMetaV>, RpcCode>(js@.map_values(|j: JobMeta| j@)),
                Err(e) => Err(*e),
            },
        )),
{
    match (a, b) {
        (Ok(ja), Ok(jb)) => {
            if ja.len() != jb.len() {
                proof {
                    let ma = ja@.map_values(|j: JobMeta| j@).map_values(
                        |j: JobMetaV| s_mask_job(j),
                    );
                    let mb = jb@.map_values(|j: JobMeta| j@).map_values(
                        |j: JobMetaV| s_mask_job(j),
                    );
                    assert(ma.len() != mb.len());
                }
                return false;
            }
            let mut i: usize = 0;
            while i < ja.len()
                invariant
                    i <= ja@.len(),
                    ja@.len() == jb@.len(),
                    forall|k: int|
                        0 <= k < i ==> s_mask_job(#[trigger] ja@[k]@) == s_mask_job(jb@[k]@),
                decreases ja@.len() - i,
            {
                let ea = &ja[i];
                let eb = &jb[i];
                let same = bytes_eq(&ea.id, &eb.id) && bytes_eq(&ea.pipeline, &eb.pipeline)
                    && ea.state == eb.state;
                if !same {
                    proof {
                        assert(s_mask_job(ja@[i as int]@) != s_mask_job(jb@[i as int]@));
                        let ma = ja@.map_values(|j: JobMeta| j@).map_values(
                            |j: JobMetaV| s_mask_job(j),
                        );
                        let mb = jb@.map_values(|j: JobMeta| j@).map_values(
                            |j: JobMetaV| s_mask_job(j),
                        );
                        assert(ma[i as int] != mb[i as int]);
                    }
                    return false;
                }
                proof {
                    assert(s_mask_job(ja@[i as int]@) =~~= s_mask_job(jb@[i as int]@));
                }
                i = i + 1;
            }
            proof {
                let ma = ja@.map_values(|j: JobMeta| j@).map_values(|j: JobMetaV| s_mask_job(j));
                let mb = jb@.map_values(|j: JobMeta| j@).map_values(|j: JobMetaV| s_mask_job(j));
                assert(ma =~= mb);
            }
            true
        },
        (Err(ea), Err(eb)) => *ea == *eb,
        _ => false,
    }
}

/// Whether the masked state recorded before extract equals the masked state
/// recorded after restore, and the tracked file read back exactly the last
/// value the model saw written (or the corrupted sentinel): the whole
/// round-trip consistency assertion.
pub open spec fn s_restore_ok(
    before: SnapshotV,
    after: SnapshotV,
    expected: Option<Seq<u8>>,
    read_back: Option<Seq<u8>>,
) -> bool {
    &&& s_mask_commit_result(before.input_commit) == s_mask_commit_result(after.input_commit)
    &&& s_mask_commit_result(before.output_commit) == s_mask_commit_result(after.output_commit)
    &&& s_mask_jobs_result(before.jobs) == s_mask_jobs_result(after.jobs)
    &&& (match expected {
        Some(v) => read_back == Some(v),
        None => true,
    })
}

/// Decides the oracle's verdict after a restore: masked input-commit
/// metadata, masked output-commit metadata and masked job history must be
/// field-for-field equal across the round trip, and when the model tracked a
/// write, the file must read back byte-exact.
pub fn restore_verdict(
    before: &Snapshot,
    after: &Snapshot,
    expected: &Option<Vec<u8>>,
    read_back: &Option<Vec<u8>>,
) -> (r: bool)
    ensures
        r == s_restore_ok(
            before@,
            after@,
            match expected {
                Some(v) => Some(v@),
                None => None,
            },
            match read_back {
                Some(v) => Some(v@),
                None => None,
            },
        ),
{
    let commits_ok = commits_agree(&before.input_commit, &after.input_commit) && commits_agree(
        &before.output_commit,
        &after.output_commit,
    );
    let jobs_ok = jobs_agree(&before.jobs, &after.jobs);
    let file_ok = match expected {
        Some(v) => match read_back {
            Some(w) => bytes_eq(v, w),
            None => false,
        },
        None => true,
    };
    commits_ok && jobs_ok && file_ok
}

/// The fixed name of the oracle's input repository.
pub open spec fn input_repo_name_spec() -> Seq<char> {
    "fuzz_extract_restore_input"@
}

/// The fixed name of the oracle's pipeline, whose output repo carries the
/// same name.
pub open spec fn pipeline_name_spec() -> Seq<char> {
    "fuzz_extract_restore_output"@
}

/// The path of the tracked test file.
pub open spec fn test_file_path_spec() -> Seq<char> {
    "/test"@
}

/// The glob under which the pipeline consumes the input repository.
pub open spec fn input_glob_spec() -> Seq<char> {
    "/*"@
}

/// The strict transform: copy the input across and refuse the corrupted
/// sentinel.
pub open spec fn base_pipeline_code_spec() -> Seq<char> {
    "\ncp /pfs/fuzz_extract_restore_input/* /pfs/out/\ntest \"$(cat /pfs/out/test)\" != \"corrupted\"\n"@
}

/// The permissive transform used by pipeline updates: copy the input across.
pub open spec fn updated_pipeline_code_spec() -> Seq<char> {
    "\ncp /pfs/fuzz_extract_restore_input/* /pfs/out/\n"@
}

/// The head commit the populate phase writes to: a staging head when writes
/// are deferred, the master head otherwise.
pub open spec fn input_head_id_spec(deferred: bool) -> Seq<char> {
    if deferred {
        "staging"@
    } else {
        "master"@
    }
}

/// The name of the master branch.
pub open spec fn master_branch_spec() -> Seq<char> {
    "master"@
}

/// The fixed name of the oracle's input repository, in wire form.
pub fn input_repo_name() -> (r: String)
    ensures
        r@ == input_repo_name_spec(),
{
    String::from_str("fuzz_extract_restore_input")
}

/// The fixed name of the oracle's pipeline, in wire form.
pub fn pipeline_name() -> (r: String)
    ensures
        r@ == pipeline_name_spec(),
{
    String::from_str("fuzz_extract_restore_output")
}

/// The path of the tracked test file, in wire form.
pub fn test_file_path() -> (r: String)
    ensures
        r@ == test_file_path_spec(),
{
    String::from_str("/test")
}

/// The glob under which the pipeline consumes the input repository, in wire
/// form.
pub fn input_glob() -> (r: String)
    ensures
        r@ == input_glob_spec(),
{
    String::from_str("/*")
}

/// The strict transform script, in wire form.
pub fn base_pipeline_code() -> (r: String)
    ensures
        r@ == base_pipeline_code_spec(),
{
    String::from_str(
        "\ncp /pfs/fuzz_extract_restore_input/* /pfs/out/\ntest \"$(cat /pfs/out/test)\" != \"corrupted\"\n",
    )
}

/// The permissive transform script, in wire form.
pub fn updated_pipeline_code() -> (r: String)
    ensures
        r@ == updated_pipeline_code_spec(),
{
    String::from_str("\ncp /pfs/fuzz_extract_restore_input/* /pfs/out/\n")
}

/// The head commit identifier the populate phase writes to, in wire form.
pub fn input_head_id(deferred: bool) -> (r: String)
    ensures
        r@ == input_head_id_spec(deferred),
{
    if deferred {
        String::from_str("staging")
    } else {
        String::from_str("master")
    }
}

/// The name of the master branch, in wire form.
pub fn master_branch() -> (r: String)
    ensures
        r@ == master_branch_spec(),
{
    String::from_str("master")
}

/// One step of an oracle case, for a driver to perform against the remote
/// service. The fixed names and scripts the steps refer to come from the
/// wire-form helpers of this module.
#[derive(Debug)]
pub enum OracleAction {
    /// Wipe pipelines and the whole filesystem.
    WipeAll,
    /// Create the input repository.
    CreateInputRepo,
    /// Create or update the pipeline: the strict transform on setup, the
    /// permissive one on updates.
    CreatePipeline { update: bool, stats: bool, reprocess: bool, base_transform: bool },
    /// Write the tracked test file with these exact bytes at overwrite index
    /// zero, optionally flushing the input commit afterwards.
    PutTestFile { contents: Vec<u8>, flush: bool },
    /// Bind the master branch to the staging head (deferred mode only).
    CreateMasterBranch,
    /// Record the masked before-snapshot.
    SnapshotBefore,
    /// Extract the whole cluster into opaque records.
    Extract { no_objects: bool, no_repos: bool, no_pipelines: bool },
    /// Run the memory-bounded garbage collection.
    GarbageCollect { memory_bytes: u64 },
    /// Replay the extracted records.
    Restore,
    /// Run the structural consistency check, without auto-fix.
    Fsck,
    /// Record the masked after-snapshot.
    SnapshotAfter,
    /// Assert the before- and after-snapshots agree under masking.
    CompareSnapshots,
    /// Read the tracked file back and compare it against the expected bytes.
    ReadBackFile,
}

/// The mathematical model of one oracle step.
pub ghost enum OracleActionV {
    WipeAll,
    CreateInputRepo,
    CreatePipeline { update: bool, stats: bool, reprocess: bool, base_transform: bool },
    PutTestFile { contents: Seq<u8>, flush: bool },
    CreateMasterBranch,
    SnapshotBefore,
    Extract { no_objects: bool, no_repos: bool, no_pipelines: bool },
    GarbageCollect { memory_bytes: u64 },
    Restore,
    Fsck,
    SnapshotAfter,
    CompareSnapshots,
    ReadBackFile,
}

impl View for OracleAction {
    type V = OracleActionV;

    open spec fn view(&self) -> OracleActionV {
        match self {
            OracleAction::WipeAll => OracleActionV::WipeAll,
            OracleAction::CreateInputRepo => OracleActionV::CreateInputRepo,
            OracleAction::CreatePipeline { update, stats, reprocess, base_transform } => {
                OracleActionV::CreatePipeline {
                    update: *update,
                    stats: *stats,
                    reprocess: *reprocess,
                    base_transform: *base_transform,
                }
            },
            OracleAction::PutTestFile { contents, flush } => OracleActionV::PutTestFile {
                contents: contents@,
                flush: *flush,
            },
            OracleAction::CreateMasterBranch => OracleActionV::CreateMasterBranch,
            OracleAction::SnapshotBefore => OracleActionV::SnapshotBefore,
            OracleAction::Extract { no_objects, no_repos, no_pipelines } => OracleActionV::Extract {
                no_objects: *no_objects,
                no_repos: *no_repos,
                no_pipelines: *no_pipelines,
            },
            OracleAction::GarbageCollect { memory_bytes } => OracleActionV::GarbageCollect {
                memory_bytes: *memory_bytes,
            },
            OracleAction::Restore => OracleActionV::Restore,
            OracleAction::Fsck => OracleActionV::Fsck,
            OracleAction::SnapshotAfter => OracleActionV::SnapshotAfter,
            OracleAction::CompareSnapshots => OracleActionV::CompareSnapshots,
            OracleAction::ReadBackFile => OracleActionV::ReadBackFile,
        }
    }
}

/// The view of a list of oracle steps.
pub open spec fn oracle_actions_view(actions: Seq<OracleAction>) -> Seq<OracleActionV> {
    actions.map_values(|a: OracleAction| a@)
}

/// The populate-phase steps: each write carries the exact bytes the
/// run-scoped counter dictates, and each pipeline update the permissive
/// transform.
pub open spec fn s_body(ops: Seq<OracleOp>) -> Seq<OracleActionV>
    decreases ops.len(),
{
    if ops.len() == 0 {
        Seq::empty()
    } else {
        let t = s_trace(ops.drop_last());
        s_body(ops.drop_last()).push(
            match ops.last() {
                OracleOp::PutFile { corrupted, flush } => OracleActionV::PutTestFile {
                    contents: if corrupted {
                        corrupted_bytes()
                    } else {
                        dec_bytes(t.counter)
                    },
                    flush,
                },
                OracleOp::UpdatePipeline { stats, reprocess } => OracleActionV::CreatePipeline {
                    update: true,
                    stats,
                    reprocess,
                    base_transform: false,
                },
            },
        )
    }
}

/// The whole step list of one oracle case: wipe, set up the input repo and
/// the strict pipeline, populate, bind the deferred head if asked, run the
/// outro (an extract alone, or the snapshot/extract/wipe/restore/check round
/// trip with its comparisons), and wipe again.
pub open spec fn s_oracle_script(o: OracleOptionsV) -> Seq<OracleActionV> {
    let setup = seq![
        OracleActionV::WipeAll,
        OracleActionV::CreateInputRepo,
        OracleActionV::CreatePipeline {
            update: false,
            stats: false,
            reprocess: false,
            base_transform: true,
        },
    ];
    let body = s_body(o.ops);
    let def: Seq<OracleActionV> = if o.deferred {
        seq![OracleActionV::CreateMasterBranch]
    } else {
        Seq::empty()
    };
    let outro: Seq<OracleActionV> = match o.outro {
        Outro::Extract { no_objects, no_repos, no_pipelines } => seq![
            OracleActionV::Extract { no_objects, no_repos, no_pipelines },
        ],
        Outro::ExtractRestore { no_objects } => {
            let gc: Seq<OracleActionV> = if !no_objects {
                seq![OracleActionV::GarbageCollect { memory_bytes: 67108864 }]
            } else {
                Seq::empty()
            };
            let read: Seq<OracleActionV> = if s_trace(o.ops).inserted {
                seq![OracleActionV::ReadBackFile]
            } else {
                Seq::empty()
            };
            seq![
                OracleActionV::SnapshotBefore,
                OracleActionV::Extract { no_objects, no_repos: false, no_pipelines: false },
                OracleActionV::WipeAll,
            ] + gc + seq![
                OracleActionV::Restore,
                OracleActionV::Fsck,
                OracleActionV::SnapshotAfter,
                OracleActionV::CompareSnapshots,
            ] + read
        },
    };
    setup + body + def + outro + seq![OracleActionV::WipeAll]
}

/// The corrupted sentinel, as bytes.
pub fn corrupted_vec() -> (r: Vec<u8>)
    ensures
        r@ == corrupted_bytes(),
{
    let mut v: Vec<u8> = Vec::new();
    v.push(99);
    v.push(111);
    v.push(114);
    v.push(114);
    v.push(117);
    v.push(112);
    v.push(116);
    v.push(101);
    v.push(100);
    proof {
        assert(v@ =~= corrupted_bytes());
    }
    v
}

/// Plans the whole step list of one oracle case.
#[verifier::rlimit(100)]
pub fn oracle_script(opts: &OracleOptions) -> (r: Vec<OracleAction>)
    ensures
        oracle_actions_view(r@) == s_oracle_script(opts@),
{
    let mut body: Vec<OracleAction> = Vec::new();
    let mut counter: u64 = 0;
    let mut i: usize = 0;
    proof {
        assert(opts.ops@.subrange(0, 0) =~= Seq::<OracleOp>::empty());
        assert(oracle_actions_view(body@) =~= s_body(opts.ops@.subrange(0, 0)));
    }
    while i < opts.ops.len()
        invariant
            i <= opts.ops@.len(),
            counter == s_trace(opts.ops@.subrange(0, i as int)).counter,
            counter <= i,
            oracle_actions_view(body@) == s_body(opts.ops@.subrange(0, i as int)),
        decreases opts.ops@.len() - i,
    {
        proof {
            assert(opts.ops@.subrange(0, i as int + 1).drop_last() =~= opts.ops@.subrange(
                0,
                i as int,
            ));
            assert(opts.ops@.subrange(0, i as int + 1).last() == opts.ops@[i as int]);
        }
        let ghost prev = body@;
        match opts.ops[i] {
            OracleOp::PutFile { corrupted, flush } => {
                if corrupted {
                    body.push(OracleAction::PutTestFile { contents: corrupted_vec(), flush });
                } else {
                    body.push(
                        OracleAction::PutTestFile { contents: to_decimal(counter), flush },
                    );
                    counter = counter + 1;
                }
            },
            OracleOp::UpdatePipeline { stats, reprocess } => {
                body.push(
                    OracleAction::CreatePipeline {
                        update: true,
                        stats,
                        reprocess,
                        base_transform: false,
                    },
                );
            },
        }
        i = i + 1;
        proof {
            assert(oracle_actions_view(body@) =~= oracle_actions_view(prev).push(
                body@.last()@,
            ));
            assert(oracle_actions_view(body@) =~= s_body(opts.ops@.subrange(0, i as int)));
        }
    }
    proof {
        assert(opts.ops@.subrange(0, opts.ops@.len() as int) =~= opts.ops@);
    }
    let (_counter, inserted, _last) = trace_of(&opts.ops);
    let mut out: Vec<OracleAction> = Vec::new();
    out.push(OracleAction::WipeAll);
    out.push(OracleAction::CreateInputRepo);
    out.push(
        OracleAction::CreatePipeline {
            update: false,
            stats: false,
            reprocess: false,
            base_transform: true,
        },
    );
    out.append(&mut body);
    if opts.deferred {
        out.push(OracleAction::CreateMasterBranch);
    }
    match opts.outro {
        Outro::Extract { no_objects, no_repos, no_pipelines } => {
            out.push(OracleAction::Extract { no_objects, no_repos, no_pipelines });
        },
        Outro::ExtractRestore { no_objects } => {
            out.push(OracleAction::SnapshotBefore);
            out.push(OracleAction::Extract { no_objects, no_repos: false, no_pipelines: false });
            out.push(OracleAction::WipeAll);
            if !no_objects {
                out.push(OracleAction::GarbageCollect { memory_bytes: 67108864 });
            }
            out.push(OracleAction::Restore);
            out.push(OracleAction::Fsck);
            out.push(OracleAction::SnapshotAfter);
            out.push(OracleAction::CompareSnapshots);
            if inserted {
                out.push(OracleAction::ReadBackFile);
            }
        },
    }
    out.push(OracleAction::WipeAll);
    proof {
        assert(oracle_actions_view(out@) =~= s_oracle_script(opts@));
    }
    out
}

/// Runs the front half of an oracle case on raw bytes: decode the case and
/// plan its whole step list. Succeeds exactly on inputs the grammar accepts.
pub fn oracle_case(input: &Vec<u8>) -> (r: Result<Vec<OracleAction>, DecodeError>)
    ensures
        match r {
            Ok(steps) => s_decode_oracle(input@) matches Ok(opts) && oracle_actions_view(steps@)
                == s_oracle_script(opts),
            Err(e) => s_decode_oracle(input@) == Err::<OracleOptionsV, _>(e),
        },
{
    let opts = match decode_oracle(input) {
        Ok(opts) => opts,
        Err(e) => {
            return Err(e);
        },
    };
    Ok(oracle_script(&opts))
}

} // verus!
