//! The registry of known CT logs: construction from a dataset, with every
//! malformed dataset rejected and the offending field named, and lookup by
//! 32-byte log id.

use vstd::prelude::*;
use crate::bytes::bytes_eq;
use crate::crypto::{sha256, sha256_of};
use crate::dataset::{LogDataset, LogDatasetView, LogEntrySource, LogEntryView, OperatorView};
use crate::encoding::{base64_decode, base64_decoded};

verus! {

/// A known CT log's identity.
pub struct CTLog {
    pub description: String,
    pub url: String,
    pub operated_by: String,
    /// DER SubjectPublicKeyInfo bytes.
    pub public_key: Vec<u8>,
    /// 32-byte SHA-256 hash of `public_key`.
    pub log_id: Vec<u8>,
    /// Maximum merge delay, in seconds.
    pub max_merge_delay: u64,
}

/// Mathematical image of a `CTLog`.
pub struct CTLogView {
    pub description: Seq<char>,
    pub url: Seq<char>,
    pub operated_by: Seq<char>,
    pub public_key: Seq<u8>,
    pub log_id: Seq<u8>,
    pub max_merge_delay: u64,
}

impl View for CTLog {
    type V = CTLogView;

    open spec fn view(&self) -> CTLogView {
        CTLogView {
            description: self.description@,
            url: self.url@,
            operated_by: self.operated_by@,
            public_key: self.public_key@,
            log_id: self.log_id@,
            max_merge_delay: self.max_merge_delay,
        }
    }
}

/// A required dataset field.
#[derive(Clone, Copy, Debug, PartialEq, Eq, Structural)]
pub enum DataField {
    Description,
    Url,
    LogId,
    Key,
    Mmd,
}

/// Why registry construction rejected a dataset; indices name the offending
/// operator and log entry.
#[derive(Clone, Copy, Debug, PartialEq, Eq, Structural)]
pub enum DataError {
    MissingName { operator: usize },
    MissingField { operator: usize, log: usize, field: DataField },
    BadBase64 { operator: usize, log: usize, field: DataField },
    BadLogIdLength { operator: usize, log: usize, length: usize },
    LogIdMismatch { operator: usize, log: usize },
    DuplicateLogId { operator: usize, log: usize },
}

/// Whether one log entry carries every required field, both base64 fields
/// decode, and the decoded id is the 32-byte SHA-256 of the decoded key.
pub open spec fn log_entry_ok(name: Option<Seq<char>>, e: LogEntryView) -> bool {
    &&& name is Some
    &&& e.description is Some
    &&& e.url is Some
    &&& e.log_id is Some
    &&& e.key is Some
    &&& e.mmd is Some
    &&& base64_decoded(e.log_id->Some_0) is Some
    &&& base64_decoded(e.key->Some_0) is Some
    &&& base64_decoded(e.log_id->Some_0)->Some_0.len() == 32
    &&& base64_decoded(e.log_id->Some_0)->Some_0 == sha256_of(base64_decoded(e.key->Some_0)->Some_0)
}

/// The registry entry a well-formed dataset entry determines.
pub open spec fn log_of_entry(name: Seq<char>, e: LogEntryView) -> CTLogView {
    CTLogView {
        description: e.description->Some_0,
        url: e.url->Some_0,
        operated_by: name,
        public_key: base64_decoded(e.key->Some_0)->Some_0,
        log_id: base64_decoded(e.log_id->Some_0)->Some_0,
        max_merge_delay: e.mmd->Some_0,
    }
}

/// The registry entries one operator contributes.
pub open spec fn logs_of_operator(op: OperatorView) -> Seq<CTLogView> {
    op.logs.map_values(|e: LogEntryView| log_of_entry(op.name->Some_0, e))
}

/// The registry entries a dataset determines, operators in order.
pub open spec fn logs_of_operators(ops: Seq<OperatorView>) -> Seq<CTLogView>
    decreases ops.len(),
{
    if ops.len() == 0 {
        Seq::empty()
    } else {
        logs_of_operator(ops[0]) + logs_of_operators(ops.skip(1))
    }
}

pub open spec fn operator_ok(op: OperatorView) -> bool {
    &&& op.name is Some
    &&& forall|j: int| 0 <= j < op.logs.len() ==> log_entry_ok(op.name, #[trigger] op.logs[j])
}

pub open spec fn entries_ok(ops: Seq<OperatorView>) -> bool {
    forall|i: int| 0 <= i < ops.len() ==> operator_ok(#[trigger] ops[i])
}

/// The decoded log id at position (i, j), when present and decodable.
pub open spec fn entry_log_id(ops: Seq<OperatorView>, i: int, j: int) -> Option<Seq<u8>> {
    if 0 <= i < ops.len() && 0 <= j < ops[i].logs.len() && ops[i].logs[j].log_id is Some {
        base64_decoded(ops[i].logs[j].log_id->Some_0)
    } else {
        None
    }
}

/// No two distinct dataset positions decode to the same log id.
pub open spec fn no_duplicate_ids(ops: Seq<OperatorView>) -> bool {
    forall|i1: int, j1: int, i2: int, j2: int|
        (i1 != i2 || j1 != j2) && #[trigger] entry_log_id(ops, i1, j1) is Some ==> entry_log_id(
            ops,
            i1,
            j1,
        ) != #[trigger] entry_log_id(ops, i2, j2)
}

/// The datasets registry construction accepts.
pub open spec fn dataset_ok(d: LogDatasetView) -> bool {
    entries_ok(d.operators) && no_duplicate_ids(d.operators)
}

/// No two registry entries share a log id.
pub open spec fn unique_log_ids(logs: Seq<CTLogView>) -> bool {
    forall|i: int, j: int|
        0 <= i < j < logs.len() ==> (#[trigger] logs[i]).log_id != (#[trigger] logs[j]).log_id
}

pub open spec fn log_views(logs: Seq<CTLog>) -> Seq<CTLogView> {
    logs.map_values(|l: CTLog| l@)
}

/// The defect a `DataError` names is present in the dataset.
pub open spec fn error_witness(d: LogDatasetView, e: DataError) -> bool {
    match e {
        DataError::MissingName { operator } => 0 <= operator < d.operators.len()
            && d.operators[operator as int].name is None,
        DataError::MissingField { operator, log, field } => 0 <= operator < d.operators.len() && 0
            <= log < d.operators[operator as int].logs.len() && (match field {
            DataField::Description => d.operators[operator as int].logs[log as int].description
                is None,
            DataField::Url => d.operators[operator as int].logs[log as int].url is None,
            DataField::LogId => d.operators[operator as int].logs[log as int].log_id is None,
            DataField::Key => d.operators[operator as int].logs[log as int].key is None,
            DataField::Mmd => d.operators[operator as int].logs[log as int].mmd is None,
        }),
        DataError::BadBase64 { operator, log, field } => 0 <= operator < d.operators.len() && 0
            <= log < d.operators[operator as int].logs.len() && (match field {
            DataField::LogId => d.operators[operator as int].logs[log as int].log_id is Some
                && base64_decoded(
                d.operators[operator as int].logs[log as int].log_id->Some_0,
            ) is None,
            DataField::Key => d.operators[operator as int].logs[log as int].key is Some
                && base64_decoded(d.operators[operator as int].logs[log as int].key->Some_0)
                is None,
            _ => false,
        }),
        DataError::BadLogIdLength { operator, log, length } => {
            let id = entry_log_id(d.operators, operator as int, log as int);
            id is Some && id->Some_0.len() == length && length != 32
        },
        DataError::LogIdMismatch { operator, log } => {
            let entry = d.operators[operator as int].logs[log as int];
            &&& 0 <= operator < d.operators.len()
            &&& 0 <= log < d.operators[operator as int].logs.len()
            &&& entry.log_id is Some
            &&& entry.key is Some
            &&& base64_decoded(entry.log_id->Some_0) is Some
            &&& base64_decoded(entry.key->Some_0) is Some
            &&& base64_decoded(entry.log_id->Some_0)->Some_0 != sha256_of(
                base64_decoded(entry.key->Some_0)->Some_0,
            )
        },
        DataError::DuplicateLogId { operator, log } => exists|pi: int, pj: int|
            (pi != operator || pj != log) && #[trigger] entry_log_id(d.operators, pi, pj) is Some
                && entry_log_id(d.operators, pi, pj) == entry_log_id(
                d.operators,
                operator as int,
                log as int,
            ),
    }
}

/// The set of known CT logs, keyed by 32-byte log id.
pub struct LogRegistry {
    pub logs: Vec<CTLog>,
}

impl LogRegistry {
    /// Registry invariant: every id is the SHA-256 of its key, and ids are
    /// pairwise distinct.
    pub open spec fn wf(&self) -> bool {
        &&& forall|k: int|
            0 <= k < self.logs@.len() ==> {
                let lv = (#[trigger] self.logs@[k])@;
                lv.log_id.len() == 32 && lv.log_id == sha256_of(lv.public_key)
            }
        &&& unique_log_ids(log_views(self.logs@))
    }

    pub open spec fn log_views(&self) -> Seq<CTLogView> {
        log_views(self.logs@)
    }
}

/// First registry entry with the given id, if any.
pub open spec fn spec_lookup(logs: Seq<CTLogView>, id: Seq<u8>) -> Option<CTLogView>
    decreases logs.len(),
{
    if logs.len() == 0 {
        None
    } else if logs[0].log_id == id {
        Some(logs[0])
    } else {
        spec_lookup(logs.skip(1), id)
    }
}

/// `spec_lookup` finds an entry exactly when one carries the id.
pub proof fn lemma_spec_lookup_props(logs: Seq<CTLogView>, id: Seq<u8>)
    ensures
        spec_lookup(logs, id) is Some <==> exists|k: int|
            0 <= k < logs.len() && (#[trigger] logs[k]).log_id == id,
        spec_lookup(logs, id) matches Some(log) ==> log.log_id == id && exists|k: int|
            0 <= k < logs.len() && #[trigger] logs[k] == log,
    decreases logs.len(),
{
    if logs.len() > 0 {
        if logs[0].log_id == id {
        } else {
            lemma_spec_lookup_props(logs.skip(1), id);
            if spec_lookup(logs.skip(1), id) is Some {
                let k = choose|k: int|
                    0 <= k < logs.skip(1).len() && (#[trigger] logs.skip(1)[k]).log_id == id;
                assert(logs[k + 1].log_id == id);
                let log = spec_lookup(logs.skip(1), id)->Some_0;
                let m = choose|m: int|
                    0 <= m < logs.skip(1).len() && #[trigger] logs.skip(1)[m] == log;
                assert(logs[m + 1] == log);
            } else {
                assert forall|k: int|
                    0 <= k < logs.len() && (#[trigger] logs[k]).log_id == id implies false by {
                    assert(logs.skip(1)[k - 1].log_id == id);
                }
            }
        }
    }
}

/// Whether (pi, pj) is a dataset position the build visits before reaching
/// position (i, j).
pub open spec fn processed_before(ops: Seq<OperatorView>, i: int, j: int, pi: int, pj: int) -> bool {
    0 <= pi < ops.len() && 0 <= pj < ops[pi].logs.len() && (pi < i || (pi == i && pj < j))
}

/// Every position already visited decoded to an id that is in the registry.
pub open spec fn ids_in_registry(
    ops: Seq<OperatorView>,
    i: int,
    j: int,
    views: Seq<CTLogView>,
) -> bool {
    forall|pi: int, pj: int|
        processed_before(ops, i, j, pi, pj) ==> #[trigger] entry_log_id(ops, pi, pj) is Some
            && exists|k: int|
            0 <= k < views.len() && (#[trigger] views[k]).log_id == entry_log_id(
                ops,
                pi,
                pj,
            )->Some_0
}

/// Every registry id came from the already-visited position `src` records
/// for it.
pub open spec fn registry_from_entries(
    ops: Seq<OperatorView>,
    i: int,
    j: int,
    views: Seq<CTLogView>,
    src: Map<int, (int, int)>,
) -> bool {
    forall|k: int|
        0 <= k < views.len() ==> processed_before(ops, i, j, (#[trigger] src[k]).0, src[k].1)
            && entry_log_id(ops, src[k].0, src[k].1) == Some(views[k].log_id)
}

/// Distinct already-visited positions decoded to distinct ids.
pub open spec fn processed_distinct(ops: Seq<OperatorView>, i: int, j: int) -> bool {
    forall|p1i: int, p1j: int, p2i: int, p2j: int|
        #![trigger entry_log_id(ops, p1i, p1j), entry_log_id(ops, p2i, p2j)]
        processed_before(ops, i, j, p1i, p1j) && processed_before(ops, i, j, p2i, p2j) && (p1i
            != p2i || p1j != p2j) ==> entry_log_id(ops, p1i, p1j) != entry_log_id(ops, p2i, p2j)
}

/// The registry entries the first `j` logs of `op` contribute.
pub open spec fn partial_logs(op: OperatorView, j: int) -> Seq<CTLogView> {
    op.logs.take(j).map_values(|e: LogEntryView| log_of_entry(op.name->Some_0, e))
}

pub proof fn lemma_logs_of_operators_snoc(ops: Seq<OperatorView>, i: int)
    requires
        0 <= i < ops.len(),
    ensures
        logs_of_operators(ops.take(i + 1)) == logs_of_operators(ops.take(i)) + logs_of_operator(
            ops[i],
        ),
    decreases i,
{
    if i == 0 {
        let s1 = ops.take(1);
        assert(s1.skip(1) =~= Seq::<OperatorView>::empty());
        assert(s1[0] == ops[0]);
        assert(ops.take(0) =~= Seq::<OperatorView>::empty());
        assert(logs_of_operators(ops.take(1)) =~= logs_of_operators(ops.take(0))
            + logs_of_operator(ops[0]));
    } else {
        let t = ops.skip(1);
        lemma_logs_of_operators_snoc(t, i - 1);
        assert(ops.take(i + 1).skip(1) =~= t.take(i));
        assert(ops.take(i).skip(1) =~= t.take(i - 1));
        assert(ops.take(i + 1)[0] == ops[0]);
        assert(ops.take(i)[0] == ops[0]);
        assert(t[i - 1] == ops[i]);
        assert(logs_of_operators(ops.take(i + 1)) == logs_of_operator(ops[0])
            + logs_of_operators(t.take(i)));
        assert(logs_of_operators(ops.take(i)) == logs_of_operator(ops[0]) + logs_of_operators(
            t.take(i - 1),
        ));
        assert(logs_of_operator(ops[0]) + (logs_of_operators(t.take(i - 1)) + logs_of_operator(
            ops[i],
        )) =~= (logs_of_operator(ops[0]) + logs_of_operators(t.take(i - 1))) + logs_of_operator(
            ops[i],
        ));
    }
}

/// Whether some registry entry carries the given id.
fn contains_log_id(logs: &Vec<CTLog>, id: &[u8]) -> (r: bool)
    ensures
        r == exists|k: int| 0 <= k < logs@.len() && (#[trigger] logs@[k])@.log_id == id@,
{
    let mut k: usize = 0;
    while k < logs.len()
        invariant
            0 <= k <= logs@.len(),
            forall|m: int| 0 <= m < k ==> (#[trigger] logs@[m])@.log_id != id@,
        decreases logs@.len() - k,
    {
        if bytes_eq(logs[k].log_id.as_slice(), id) {
            return true;
        }
        k = k + 1;
    }
    false
}

/// Builds the registry from a dataset. Exactly the well-formed datasets are
/// accepted; a rejection names the offending operator, entry and field; an
/// accepted dataset yields one registry entry per dataset entry, in order.
pub fn build(dataset: &LogDataset) -> (r: Result<LogRegistry, DataError>)
    ensures
        r is Ok <==> dataset_ok(dataset@),
        (r matches Ok(reg) ==> reg.wf() && reg.log_views() == logs_of_operators(
            dataset@.operators,
        )),
        (r matches Err(e) ==> error_witness(dataset@, e)),
{
    let ghost ops = dataset@.operators;
    let ghost mut src: Map<int, (int, int)> = Map::empty();
    let mut logs: Vec<CTLog> = Vec::new();
    let mut i: usize = 0;
    proof {
        assert(ops.take(0) =~= Seq::<OperatorView>::empty());
        assert(log_views(logs@) =~= logs_of_operators(ops.take(0)));
    }
    while i < dataset.operators.len()
        invariant
            0 <= i <= ops.len(),
            ops == dataset@.operators,
            dataset.operators@.len() == ops.len(),
            forall|k: int| 0 <= k < i ==> operator_ok(#[trigger] ops[k]),
            log_views(logs@) == logs_of_operators(ops.take(i as int)),
            forall|k: int|
                0 <= k < logs@.len() ==> {
                    let lv = (#[trigger] logs@[k])@;
                    lv.log_id.len() == 32 && lv.log_id == sha256_of(lv.public_key)
                },
            unique_log_ids(log_views(logs@)),
            ids_in_registry(ops, i as int, 0, log_views(logs@)),
            registry_from_entries(ops, i as int, 0, log_views(logs@), src),
            processed_distinct(ops, i as int, 0),
        decreases ops.len() - i,
    {
        let op = &dataset.operators[i];
        proof {
            assert(op@ == ops[i as int]);
        }
        let name = match &op.name {
            Some(n) => n,
            None => {
                proof {
                    assert(!operator_ok(ops[i as int]));
                }
                return Err(DataError::MissingName { operator: i });
            },
        };
        let mut j: usize = 0;
        proof {
            assert(op.logs@.take(0) =~= Seq::<LogEntrySource>::empty());
            assert(log_views(logs@) =~= logs_of_operators(ops.take(i as int)) + partial_logs(
                ops[i as int],
                0,
            ));
        }
        while j < op.logs.len()
            invariant
                0 <= i < ops.len(),
                0 <= j <= op.logs@.len(),
                ops == dataset@.operators,
                dataset.operators@.len() == ops.len(),
                op@ == ops[i as int],
                op.logs@.len() == ops[i as int].logs.len(),
                ops[i as int].name == Some(name@),
                forall|k: int| 0 <= k < i ==> operator_ok(#[trigger] ops[k]),
                forall|m: int|
                    0 <= m < j ==> log_entry_ok(ops[i as int].name, #[trigger] ops[i as int].logs[m]),
                log_views(logs@) == logs_of_operators(ops.take(i as int)) + partial_logs(
                    ops[i as int],
                    j as int,
                ),
                forall|k: int|
                    0 <= k < logs@.len() ==> {
                        let lv = (#[trigger] logs@[k])@;
                        lv.log_id.len() == 32 && lv.log_id == sha256_of(lv.public_key)
                    },
                unique_log_ids(log_views(logs@)),
                ids_in_registry(ops, i as int, j as int, log_views(logs@)),
                registry_from_entries(ops, i as int, j as int, log_views(logs@), src),
                processed_distinct(ops, i as int, j as int),
            decreases op.logs@.len() - j,
        {
            let entry = &op.logs[j];
            let ghost ev = ops[i as int].logs[j as int];
            proof {
                assert(entry@ == ev);
            }
            let description = match &entry.description {
                Some(x) => x,
                None => {
                    proof {
                        assert(!log_entry_ok(ops[i as int].name, ev));
                        assert(!operator_ok(ops[i as int]));
                    }
                    return Err(DataError::MissingField {
                        operator: i,
                        log: j,
                        field: DataField::Description,
                    });
                },
            };
            let url = match &entry.url {
                Some(x) => x,
                None => {
                    proof {
                        assert(!operator_ok(ops[i as int]));
                    }
                    return Err(DataError::MissingField {
                        operator: i,
                        log: j,
                        field: DataField::Url,
                    });
                },
            };
            let log_id_s = match &entry.log_id {
                Some(x) => x,
                None => {
                    proof {
                        assert(!operator_ok(ops[i as int]));
                    }
                    return Err(DataError::MissingField {
                        operator: i,
                        log: j,
                        field: DataField::LogId,
                    });
                },
            };
            let key_s = match &entry.key {
                Some(x) => x,
                None => {
                    proof {
                        assert(!operator_ok(ops[i as int]));
                    }
                    return Err(DataError::MissingField {
                        operator: i,
                        log: j,
                        field: DataField::Key,
                    });
                },
            };
            let mmd = match entry.mmd {
                Some(m) => m,
                None => {
                    proof {
                        assert(!operator_ok(ops[i as int]));
                    }
                    return Err(DataError::MissingField {
                        operator: i,
                        log: j,
                        field: DataField::Mmd,
                    });
                },
            };
            let id_bytes = match base64_decode(log_id_s.as_str()) {
                Some(v) => v,
                None => {
                    proof {
                        assert(!operator_ok(ops[i as int]));
                    }
                    return Err(DataError::BadBase64 {
                        operator: i,
                        log: j,
                        field: DataField::LogId,
                    });
                },
            };
            let key_bytes = match base64_decode(key_s.as_str()) {
                Some(v) => v,
                None => {
                    proof {
                        assert(!operator_ok(ops[i as int]));
                    }
                    return Err(DataError::BadBase64 {
                        operator: i,
                        log: j,
                        field: DataField::Key,
                    });
                },
            };
            if id_bytes.len() != 32 {
                proof {
                    assert(!operator_ok(ops[i as int]));
                }
                return Err(DataError::BadLogIdLength {
                    operator: i,
                    log: j,
                    length: id_bytes.len(),
                });
            }
            let hash = sha256(key_bytes.as_slice());
            if !bytes_eq(id_bytes.as_slice(), hash.as_slice()) {
                proof {
                    assert(!operator_ok(ops[i as int]));
                }
                return Err(DataError::LogIdMismatch { operator: i, log: j });
            }
            if contains_log_id(&logs, id_bytes.as_slice()) {
                proof {
                    let k = choose|k: int|
                        0 <= k < logs@.len() && (#[trigger] logs@[k])@.log_id == id_bytes@;
                    assert(log_views(logs@)[k].log_id == id_bytes@);
                    let pi = src[k].0;
                    let pj = src[k].1;
                    assert(processed_before(ops, i as int, j as int, pi, pj) && entry_log_id(
                        ops,
                        pi,
                        pj,
                    ) == Some(log_views(logs@)[k].log_id));
                    assert(entry_log_id(ops, i as int, j as int) == Some(id_bytes@));
                    assert((pi != i as int || pj != j as int) && entry_log_id(ops, pi, pj) is Some
                        && entry_log_id(ops, pi, pj) == entry_log_id(ops, i as int, j as int));
                    assert(!no_duplicate_ids(ops));
                }
                return Err(DataError::DuplicateLogId { operator: i, log: j });
            }
            let new_log = CTLog {
                description: description.clone(),
                url: url.clone(),
                operated_by: name.clone(),
                public_key: key_bytes,
                log_id: id_bytes,
                max_merge_delay: mmd,
            };
            proof {
                assert(new_log@ == log_of_entry(ops[i as int].name->Some_0, ev));
                assert(log_entry_ok(ops[i as int].name, ev));
            }
            let ghost old_views = log_views(logs@);
            let ghost old_src = src;
            logs.push(new_log);
            j = j + 1;
            proof {
                src = src.insert(old_views.len() as int, (i as int, (j - 1) as int));
                let views = log_views(logs@);
                assert(views =~= old_views.push(new_log@));
                assert(log_views(logs@) =~= logs_of_operators(ops.take(i as int)) + partial_logs(
                    ops[i as int],
                    j as int,
                ));
                assert forall|pi: int, pj: int|
                    processed_before(ops, i as int, j as int, pi, pj) implies #[trigger]
                entry_log_id(ops, pi, pj) is Some && exists|k: int|
                    0 <= k < views.len() && (#[trigger] views[k]).log_id == entry_log_id(
                        ops,
                        pi,
                        pj,
                    )->Some_0 by {
                    if pi == i as int && pj == j - 1 {
                        assert(views[views.len() - 1].log_id == id_bytes@);
                    } else {
                        assert(processed_before(ops, i as int, j - 1, pi, pj));
                        let k = choose|k: int|
                            0 <= k < old_views.len() && (#[trigger] old_views[k]).log_id
                                == entry_log_id(ops, pi, pj)->Some_0;
                        assert(views[k].log_id == entry_log_id(ops, pi, pj)->Some_0);
                    }
                }
                assert forall|p1i: int, p1j: int, p2i: int, p2j: int|
                    processed_before(ops, i as int, j as int, p1i, p1j) && processed_before(
                        ops,
                        i as int,
                        j as int,
                        p2i,
                        p2j,
                    ) && (p1i != p2i || p1j != p2j) implies entry_log_id(ops, p1i, p1j)
                    != entry_log_id(ops, p2i, p2j) by {
                    if p1i == i as int && p1j == j - 1 {
                        assert(processed_before(ops, i as int, j - 1, p2i, p2j));
                        let k = choose|k: int|
                            0 <= k < old_views.len() && (#[trigger] old_views[k]).log_id
                                == entry_log_id(ops, p2i, p2j)->Some_0;
                        assert(old_views[k].log_id != id_bytes@);
                    } else if p2i == i as int && p2j == j - 1 {
                        assert(processed_before(ops, i as int, j - 1, p1i, p1j));
                        let k = choose|k: int|
                            0 <= k < old_views.len() && (#[trigger] old_views[k]).log_id
                                == entry_log_id(ops, p1i, p1j)->Some_0;
                        assert(old_views[k].log_id != id_bytes@);
                    } else {
                        assert(processed_before(ops, i as int, j - 1, p1i, p1j));
                        assert(processed_before(ops, i as int, j - 1, p2i, p2j));
                    }
                }
                assert forall|k: int| 0 <= k < log_views(logs@).len() implies processed_before(
                    ops,
                    i as int,
                    j as int,
                    (#[trigger] src[k]).0,
                    src[k].1,
                ) && entry_log_id(ops, src[k].0, src[k].1) == Some(log_views(logs@)[k].log_id) by {
                    if k < old_views.len() {
                        assert(src[k] == old_src[k]);
                        assert(processed_before(ops, i as int, j - 1, old_src[k].0, old_src[k].1)
                            && entry_log_id(ops, old_src[k].0, old_src[k].1) == Some(
                            old_views[k].log_id,
                        ));
                        assert(log_views(logs@)[k] == old_views[k]);
                    } else {
                        assert(src[k] == (i as int, (j - 1) as int));
                        assert(log_views(logs@)[k].log_id == id_bytes@);
                    }
                }
            }
        }
        proof {
            assert(op.logs@.take(j as int) =~= op.logs@);
            assert(partial_logs(ops[i as int], j as int) =~= logs_of_operator(ops[i as int]));
            lemma_logs_of_operators_snoc(ops, i as int);
            assert(log_views(logs@) =~= logs_of_operators(ops.take(i + 1)));
            assert(operator_ok(ops[i as int]));
            assert forall|pi: int, pj: int|
                processed_before(ops, i + 1, 0, pi, pj) implies processed_before(
                ops,
                i as int,
                ops[i as int].logs.len() as int,
                pi,
                pj,
            ) by {}
            assert forall|k: int| 0 <= k < log_views(logs@).len() implies processed_before(
                ops,
                i + 1,
                0,
                (#[trigger] src[k]).0,
                src[k].1,
            ) && entry_log_id(ops, src[k].0, src[k].1) == Some(log_views(logs@)[k].log_id) by {
                assert(processed_before(ops, i as int, j as int, src[k].0, src[k].1)
                    && entry_log_id(ops, src[k].0, src[k].1) == Some(log_views(logs@)[k].log_id));
            }
        }
        i = i + 1;
    }
    proof {
        assert(ops.take(i as int) =~= ops);
        assert(entries_ok(ops));
        assert forall|i1: int, j1: int, i2: int, j2: int|
            (i1 != i2 || j1 != j2) && #[trigger] entry_log_id(ops, i1, j1) is Some implies
        entry_log_id(ops, i1, j1) != #[trigger] entry_log_id(ops, i2, j2) by {
            if entry_log_id(ops, i2, j2) is Some {
                assert(processed_before(ops, ops.len() as int, 0, i1, j1));
                assert(processed_before(ops, ops.len() as int, 0, i2, j2));
            }
        }
        assert(no_duplicate_ids(ops));
    }
    Ok(LogRegistry { logs })
}

/// Law: registry construction is deterministic — datasets with identical
/// contents are accepted alike and determine identical registry contents.
pub proof fn lemma_build_deterministic(d1: LogDatasetView, d2: LogDatasetView)
    requires
        d1 == d2,
    ensures
        dataset_ok(d1) == dataset_ok(d2),
        logs_of_operators(d1.operators) == logs_of_operators(d2.operators),
{
}

/// Law: every entry of a well-formed registry has its 32-byte id equal to
/// the SHA-256 of its public key.
pub proof fn lemma_registry_ids_are_key_hashes(reg: &LogRegistry)
    requires
        reg.wf(),
    ensures
        forall|k: int|
            0 <= k < reg.logs@.len() ==> {
                let lv = (#[trigger] reg.logs@[k])@;
                lv.log_id == sha256_of(lv.public_key) && lv.log_id.len() == 32
            },
{
}

impl LogRegistry {
    /// Finds the known log with the given 32-byte id, if any.
    pub fn lookup(&self, log_id: &[u8]) -> (r: Option<&CTLog>)
        ensures
            match r {
                Some(log) => spec_lookup(self.log_views(), log_id@) == Some(log@),
                None => spec_lookup(self.log_views(), log_id@) is None,
            },
    {
        let ghost views = self.log_views();
        proof {
            assert(views.skip(0) =~= views);
        }
        let mut k: usize = 0;
        while k < self.logs.len()
            invariant
                0 <= k <= self.logs@.len(),
                views == log_views(self.logs@),
                spec_lookup(views, log_id@) == spec_lookup(views.skip(k as int), log_id@),
            decreases self.logs@.len() - k,
        {
            proof {
                assert(views.skip(k as int)[0] == self.logs@[k as int]@);
                assert(views.skip(k as int).skip(1) =~= views.skip(k + 1));
            }
            if bytes_eq(self.logs[k].log_id.as_slice(), log_id) {
                return Some(&self.logs[k]);
            }
            k = k + 1;
        }
        proof {
            assert(views.skip(k as int).len() == 0);
        }
        None
    }
}

} // verus!
