//! The reference fixture: a safetensors file holding, per test and run, the expected outputs
//! (f32 tensors) and the checksum of every synthesized input (one i64 per input, of which the
//! low 32 bits are the checksum).

use vstd::prelude::*;

use crate::checksum::{checksum, checksum_of};
use crate::header::{data_end_overflows, header_overflows};
use crate::keys::{check_name, seed_key, seed_name};
use crate::suite::{is_tested_key, known_test, test_segment};

verus! {

#[verifier::external_type_specification]
#[verifier::external_body]
pub struct ExSafeTensorError(safetensors::SafeTensorError);

/// The element types the fixture distinguishes.
#[derive(Clone, Copy, Debug, PartialEq, Eq, Structural)]
pub enum ElementKind {
    F32,
    I64,
    Other,
}

/// One tensor of a safetensors file: its name, its element type and its raw bytes.
pub struct TensorRecord {
    pub name: String,
    pub kind: ElementKind,
    pub data: Vec<u8>,
}

impl View for TensorRecord {
    type V = (Seq<char>, ElementKind, Seq<u8>);

    open spec fn view(&self) -> (Seq<char>, ElementKind, Seq<u8>) {
        (self.name@, self.kind, self.data@)
    }
}

/// The views of a sequence of records.
pub open spec fn record_views(records: Seq<TensorRecord>) -> Seq<(Seq<char>, ElementKind, Seq<u8>)> {
    records.map_values(|t: TensorRecord| t@)
}

/// What the safetensors file `bytes` holds, by tensor name: each tensor's element type and
/// bytes; `None` when `bytes` is not a well-formed safetensors file.
pub uninterp spec fn safetensors_tensors(bytes: Seq<u8>) -> Option<Map<Seq<char>, (ElementKind, Seq<u8>)>>;

/// `records` lists the tensors of `tensors`, each once, in some order.
pub open spec fn lists_tensors(
    records: Seq<(Seq<char>, ElementKind, Seq<u8>)>,
    tensors: Map<Seq<char>, (ElementKind, Seq<u8>)>,
) -> bool {
    &&& forall|i: int|
        0 <= i < records.len() ==> tensors.contains_key(#[trigger] records[i].0) && tensors[records[i].0]
            == (records[i].1, records[i].2)
    &&& forall|k: Seq<char>|
        #[trigger] tensors.contains_key(k) ==> exists|i: int| 0 <= i < records.len() && records[i].0 == k
    &&& forall|i: int, j: int|
        0 <= i < j < records.len() ==> (#[trigger] records[i]).0 != (#[trigger] records[j]).0
}

/// Parses a safetensors file with `safetensors::SafeTensors::deserialize` and lists its tensors
/// (`SafeTensors::tensors`), each as its name, element type and bytes. The listing order is
/// that of the crate's internal hash map and is left unsaid; the set of tensors is a function
/// of the bytes. `SafeTensors::read_metadata` parses the header (the bytes after the first
/// eight, as many as they declare) with `serde_json` into the crate's `Metadata` and validates
/// it; it then adds the end of the last tensor's data to the header length and the eight
/// length bytes without an overflow check. That sum passes `usize::MAX` only on the files
/// `data_end_overflows` describes, which are kept out.
#[verifier::external_body]
fn read_tensor_records(bytes: &[u8]) -> (r: Result<Vec<TensorRecord>, safetensors::SafeTensorError>)
    requires
        !data_end_overflows(bytes@),
    ensures
        r is Ok <==> safetensors_tensors(bytes@) is Some,
        r matches Ok(records) ==> lists_tensors(
            record_views(records@),
            safetensors_tensors(bytes@).unwrap(),
        ),
{
    let tensors = safetensors::SafeTensors::deserialize(bytes)?;
    Ok(tensors.tensors().into_iter().map(|(name, view)| TensorRecord {
        name,
        kind: match view.dtype() {
            safetensors::Dtype::F32 => ElementKind::F32,
            safetensors::Dtype::I64 => ElementKind::I64,
            _ => ElementKind::Other,
        },
        data: view.data().to_vec(),
    }).collect())
}

/// Why a fixture could not be read.
#[derive(Debug)]
pub enum FixtureError {
    /// The bytes are not a safetensors file.
    Malformed(safetensors::SafeTensorError),
    /// A tensor is neither f32 (an expectation) nor i64 (a checksum).
    UnexpectedDtype(String),
    /// A checksum tensor holds fewer than the eight bytes of one i64.
    ShortChecksum(String),
    /// The header is valid, but the end of the tensor data it declares, added to the header's
    /// length, passes `usize::MAX`: no file in memory can be that long.
    DataEndOverflow,
}

/// Whether a record can be part of a fixture: an f32 expectation, or an i64 checksum with at
/// least one element.
pub open spec fn fixture_record(r: (Seq<char>, ElementKind, Seq<u8>)) -> bool {
    r.1 == ElementKind::F32 || (r.1 == ElementKind::I64 && r.2.len() >= 8)
}

/// The index of the first record that cannot be part of a fixture, if any.
#[verifier::opaque]
pub open spec fn first_unfit(records: Seq<(Seq<char>, ElementKind, Seq<u8>)>) -> Option<int> {
    if forall|i: int| 0 <= i < records.len() ==> fixture_record(#[trigger] records[i]) {
        None
    } else {
        Some(
            choose|i: int|
                0 <= i < records.len() && !fixture_record(#[trigger] records[i]) && forall|j: int|
                    0 <= j < i ==> fixture_record(#[trigger] records[j]),
        )
    }
}

/// The bytes of the last record of kind `kind` named `key`.
pub open spec fn last_of(
    records: Seq<(Seq<char>, ElementKind, Seq<u8>)>,
    kind: ElementKind,
    key: Seq<char>,
) -> Option<Seq<u8>>
    decreases records.len(),
{
    if records.len() == 0 {
        None
    } else if records.last().1 == kind && records.last().0 == key {
        Some(records.last().2)
    } else {
        last_of(records.drop_last(), kind, key)
    }
}

/// The bytes of tensor `key` of `tensors` when it has element type `kind`.
pub open spec fn tensor_of_kind(
    tensors: Map<Seq<char>, (ElementKind, Seq<u8>)>,
    kind: ElementKind,
    key: Seq<char>,
) -> Option<Seq<u8>> {
    if tensors.contains_key(key) && tensors[key].0 == kind {
        Some(tensors[key].1)
    } else {
        None
    }
}

/// The checksum an i64 tensor stores: its low 32 bits, from its first four little-endian
/// bytes.
pub open spec fn stored_checksum(data: Seq<u8>) -> u32 {
    (data[0] as nat + 0x100 * data[1] as nat + 0x1_0000 * data[2] as nat + 0x100_0000
        * data[3] as nat) as u32
}

/// The expected outputs and input checksums of a fixture.
pub struct Fixture {
    records: Vec<TensorRecord>,
}

impl View for Fixture {
    type V = Seq<(Seq<char>, ElementKind, Seq<u8>)>;

    closed spec fn view(&self) -> Seq<(Seq<char>, ElementKind, Seq<u8>)> {
        record_views(self.records@)
    }
}

/// Why a synthesized input could not be confirmed.
#[derive(Debug)]
pub enum InputError {
    /// The fixture stores no checksum under this name.
    MissingChecksum(String),
    /// The synthesized bytes do not have the stored checksum.
    Mismatch { expected: u32, actual: u32 },
}

/// What building a fixture from `records` (in this order) gives: the fixture holding them
/// all, or the rejection of the first record that is neither an expectation nor a
/// well-formed checksum.
pub open spec fn records_outcome(
    records: Seq<(Seq<char>, ElementKind, Seq<u8>)>,
    r: Result<Fixture, FixtureError>,
) -> bool {
    match first_unfit(records) {
        None => r matches Ok(f) && f@ == records,
        Some(i) => match records[i].1 {
            ElementKind::Other => r matches Err(FixtureError::UnexpectedDtype(name)) && name@
                == records[i].0,
            ElementKind::I64 => r matches Err(FixtureError::ShortChecksum(name)) && name@
                == records[i].0,
            ElementKind::F32 => false,
        },
    }
}

/// What reading a fixture whose file holds `tensors` gives: a fixture exactly when every
/// tensor is an f32 expectation or an i64 checksum, whose lookups then find those tensors;
/// otherwise the rejection of one offending tensor.
pub open spec fn tensors_outcome(
    tensors: Map<Seq<char>, (ElementKind, Seq<u8>)>,
    r: Result<Fixture, FixtureError>,
) -> bool {
    &&& r is Ok <==> forall|k: Seq<char>|
        #[trigger] tensors.contains_key(k) ==> fixture_record((k, tensors[k].0, tensors[k].1))
    &&& r matches Ok(f) ==> forall|k: Seq<char>|
        #[trigger] f.expected_spec(k) == tensor_of_kind(tensors, ElementKind::F32, k)
            && f.checksum_spec(k) == match tensor_of_kind(tensors, ElementKind::I64, k) {
            Some(data) => Some(stored_checksum(data)),
            None => None,
        }
    &&& r matches Err(FixtureError::UnexpectedDtype(name)) ==> tensors.contains_key(name@)
        && tensors[name@].0 == ElementKind::Other
    &&& r matches Err(FixtureError::ShortChecksum(name)) ==> tensors.contains_key(name@)
        && tensors[name@].0 == ElementKind::I64 && tensors[name@].1.len() < 8
    &&& !(r matches Err(FixtureError::Malformed(_)))
    &&& !(r matches Err(FixtureError::DataEndOverflow))
}

proof fn lemma_outcome_ok(
    records: Seq<(Seq<char>, ElementKind, Seq<u8>)>,
    tensors: Map<Seq<char>, (ElementKind, Seq<u8>)>,
    f: Fixture,
)
    requires
        lists_tensors(records, tensors),
        f@ == records,
    ensures
        forall|k: Seq<char>|
            #[trigger] f.expected_spec(k) == tensor_of_kind(tensors, ElementKind::F32, k)
                && f.checksum_spec(k) == match tensor_of_kind(tensors, ElementKind::I64, k) {
                Some(data) => Some(stored_checksum(data)),
                None => None,
            },
{
    assert forall|k: Seq<char>| #[trigger] f.expected_spec(k) == tensor_of_kind(
        tensors,
        ElementKind::F32,
        k,
    ) && f.checksum_spec(k) == match tensor_of_kind(tensors, ElementKind::I64, k) {
        Some(data) => Some(stored_checksum(data)),
        None => None,
    } by {
        lemma_last_of_listed(records, tensors, ElementKind::F32, k);
        lemma_last_of_listed(records, tensors, ElementKind::I64, k);
    }
}

proof fn lemma_outcome(
    records: Seq<(Seq<char>, ElementKind, Seq<u8>)>,
    tensors: Map<Seq<char>, (ElementKind, Seq<u8>)>,
    r: Result<Fixture, FixtureError>,
)
    requires
        lists_tensors(records, tensors),
        records_outcome(records, r),
    ensures
        tensors_outcome(tensors, r),
{
    lemma_fit_iff_all_fit(records, tensors);
    lemma_first_unfit_props(records);
    match first_unfit(records) {
        None => {
            let f = r.unwrap();
            lemma_outcome_ok(records, tensors, f);
        },
        Some(i) => {
            assert(tensors.contains_key(records[i].0));
        },
    }
}

proof fn lemma_first_unfit_props(records: Seq<(Seq<char>, ElementKind, Seq<u8>)>)
    ensures
        first_unfit(records) is None <==> forall|i: int|
            0 <= i < records.len() ==> fixture_record(#[trigger] records[i]),
        first_unfit(records) matches Some(i) ==> 0 <= i < records.len() && !fixture_record(
            records[i],
        ),
{
    reveal(first_unfit);
    if !(forall|i: int| 0 <= i < records.len() ==> fixture_record(#[trigger] records[i])) {
        let i = choose|i: int| 0 <= i < records.len() && !fixture_record(#[trigger] records[i]);
        lemma_least_unfit_exists(records, i);
    }
}

proof fn lemma_least_unfit_exists(records: Seq<(Seq<char>, ElementKind, Seq<u8>)>, i: int)
    requires
        0 <= i < records.len(),
        !fixture_record(records[i]),
    ensures
        exists|k: int|
            0 <= k < records.len() && !fixture_record(#[trigger] records[k]) && forall|j: int|
                0 <= j < k ==> fixture_record(#[trigger] records[j]),
    decreases i,
{
    if exists|j: int| 0 <= j < i && !fixture_record(#[trigger] records[j]) {
        let j = choose|j: int| 0 <= j < i && !fixture_record(#[trigger] records[j]);
        lemma_least_unfit_exists(records, j);
    } else {
        assert(forall|j: int| 0 <= j < i ==> fixture_record(#[trigger] records[j]));
    }
}

impl Fixture {
    /// The bytes of the f32 tensor named `key`, if the fixture holds one.
    pub open spec fn expected_spec(&self, key: Seq<char>) -> Option<Seq<u8>> {
        last_of(self@, ElementKind::F32, key)
    }

    /// The checksum stored under `key`, if the fixture holds one.
    pub open spec fn checksum_spec(&self, key: Seq<char>) -> Option<u32> {
        match last_of(self@, ElementKind::I64, key) {
            Some(data) => Some(stored_checksum(data)),
            None => None,
        }
    }

    /// Every record of a fixture is an expectation or a well-formed checksum.
    #[verifier::type_invariant]
    spec fn wf(self) -> bool {
        forall|i: int|
            0 <= i < self.records@.len() ==> fixture_record(#[trigger] record_views(self.records@)[i])
    }

    /// Builds the fixture from the tensors of a safetensors file, read in order: f32 tensors
    /// become expectations, i64 tensors checksums, and the first tensor of any other type (or
    /// an i64 tensor too short for one value) is rejected.
    pub fn from_records(records: Vec<TensorRecord>) -> (r: Result<Fixture, FixtureError>)
        ensures
            records_outcome(record_views(records@), r),
    {
        let ghost views = record_views(records@);
        let mut i: usize = 0;
        while i < records.len()
            invariant
                i <= records@.len(),
                views == record_views(records@),
                forall|j: int| 0 <= j < i ==> fixture_record(#[trigger] views[j]),
            decreases records@.len() - i,
        {
            let record = &records[i];
            assert(views[i as int] == record@);
            match record.kind {
                ElementKind::F32 => {},
                ElementKind::I64 => {
                    if record.data.len() < 8 {
                        proof {
                            lemma_first_unfit_at(views, i as int);
                        }
                        return Err(FixtureError::ShortChecksum(record.name.clone()));
                    }
                },
                ElementKind::Other => {
                    proof {
                        lemma_first_unfit_at(views, i as int);
                    }
                    return Err(FixtureError::UnexpectedDtype(record.name.clone()));
                },
            }
            i += 1;
        }
        let f = Fixture { records };
        assert(f@ == views);
        proof {
            lemma_first_unfit_props(views);
        }
        Ok(f)
    }

    /// Reads the fixture stored in the safetensors file `bytes`. A valid header whose data
    /// end, added to its length, passes `usize::MAX` is refused before the file is parsed.
    pub fn from_safetensors(bytes: &[u8]) -> (r: Result<Fixture, FixtureError>)
        ensures
            data_end_overflows(bytes@) ==> r matches Err(FixtureError::DataEndOverflow),
            !data_end_overflows(bytes@) ==> match safetensors_tensors(bytes@) {
                None => r matches Err(FixtureError::Malformed(_)),
                Some(tensors) => tensors_outcome(tensors, r),
            },
    {
        if header_overflows(bytes) {
            return Err(FixtureError::DataEndOverflow);
        }
        match read_tensor_records(bytes) {
            Err(e) => Err(FixtureError::Malformed(e)),
            Ok(records) => {
                let ghost views = record_views(records@);
                let r = Fixture::from_records(records);
                proof {
                    lemma_outcome(views, safetensors_tensors(bytes@).unwrap(), r);
                }
                r
            },
        }
    }

    fn lookup(&self, kind: ElementKind, key: &String) -> (r: Option<&Vec<u8>>)
        ensures
            r matches Some(data) ==> last_of(self@, kind, key@) == Some(data@),
            r is None ==> last_of(self@, kind, key@) is None,
    {
        let mut i = self.records.len();
        assert(self@.take(i as int) =~= self@);
        while i > 0
            invariant
                i <= self.records@.len(),
                last_of(self@, kind, key@) == last_of(self@.take(i as int), kind, key@),
            decreases i,
        {
            let record = &self.records[i - 1];
            proof {
                assert(self@.take(i as int).drop_last() =~= self@.take(i - 1));
                assert(self@.take(i as int).last() == record@);
            }
            if record.kind == kind && record.name == *key {
                return Some(&record.data);
            }
            i -= 1;
        }
        assert(self@.take(0) =~= Seq::<(Seq<char>, ElementKind, Seq<u8>)>::empty());
        None
    }

    /// The expected output `label` of test `test` in run `run` (stored as little-endian f32
    /// bytes under `run{run}.{test}.{label}`).
    pub fn expect(&self, run: usize, test: &str, label: &str) -> (r: Option<&Vec<u8>>)
        ensures
            r matches Some(data) ==> self.expected_spec(seed_key(run as nat, test@, label@)) == Some(
                data@,
            ),
            r is None ==> self.expected_spec(seed_key(run as nat, test@, label@)) is None,
    {
        let key = seed_name(run, test, label);
        self.lookup(ElementKind::F32, &key)
    }

    /// The stored checksum of input `input` of test `test` in run `run` (under
    /// `run{run}.{test}.check.{input}`).
    pub fn checksum(&self, run: usize, test: &str, input: &str) -> (r: Option<u32>)
        ensures
            r == self.checksum_spec(seed_key(run as nat, test@, "check."@ + input@)),
    {
        proof {
            use_type_invariant(self);
        }
        let key = check_name(run, test, input);
        match self.lookup(ElementKind::I64, &key) {
            Some(data) => {
                proof {
                    lemma_last_of_is_record(self@, ElementKind::I64, key@);
                }
                let v: u32 = data[0] as u32 + data[1] as u32 * 0x100 + data[2] as u32 * 0x1_0000
                    + data[3] as u32 * 0x100_0000;
                Some(v)
            },
            None => None,
        }
    }

    /// Confirms that the bytes synthesized for input `name` of test `test` in run `run` have
    /// the checksum the fixture stores for them.
    pub fn verify_input(&self, run: usize, test: &str, name: &str, storage: &[u8]) -> (r: Result<
        (),
        InputError,
    >)
        ensures
            match self.checksum_spec(seed_key(run as nat, test@, "check."@ + name@)) {
                None => r matches Err(InputError::MissingChecksum(key)) && key@ == seed_key(
                    run as nat,
                    test@,
                    "check."@ + name@,
                ),
                Some(expected) => if expected == checksum_of(storage@, 0) {
                    r is Ok
                } else {
                    r == Err::<(), InputError>(
                        InputError::Mismatch { expected, actual: checksum_of(storage@, 0) },
                    )
                },
            },
    {
        match self.checksum(run, test, name) {
            None => Err(InputError::MissingChecksum(check_name(run, test, name))),
            Some(expected) => {
                let _len = storage.len();
                let actual = checksum(storage, 0);
                if actual == expected {
                    Ok(())
                } else {
                    Err(InputError::Mismatch { expected, actual })
                }
            },
        }
    }

    /// The names of the expectations no test reads: those whose second name segment is not
    /// a known test.
    pub fn orphan_expectations(&self) -> (orphans: Vec<String>)
        ensures
            orphans@.map_values(|s: String| s@) == orphan_names(self@),
    {
        let mut orphans: Vec<String> = Vec::new();
        let mut i: usize = 0;
        while i < self.records.len()
            invariant
                i <= self.records@.len(),
                orphans@.map_values(|s: String| s@) == orphan_names(self@.take(i as int)),
            decreases self.records@.len() - i,
        {
            let record = &self.records[i];
            proof {
                assert(self@.take(i + 1).drop_last() =~= self@.take(i as int));
                assert(self@.take(i + 1).last() == record@);
            }
            if record.kind == ElementKind::F32 && !is_tested_key(record.name.as_str()) {
                let ghost before = orphans@;
                orphans.push(record.name.clone());
                assert(orphans@.map_values(|s: String| s@) =~= before.map_values(|s: String| s@).push(
                    record.name@,
                ));
            }
            i += 1;
        }
        assert(self@.take(self@.len() as int) =~= self@);
        orphans
    }
}

/// The names of the f32 records whose test segment names no known test, in order.
pub open spec fn orphan_names(records: Seq<(Seq<char>, ElementKind, Seq<u8>)>) -> Seq<Seq<char>>
    decreases records.len(),
{
    if records.len() == 0 {
        Seq::empty()
    } else {
        let rest = orphan_names(records.drop_last());
        let r = records.last();
        if r.1 == ElementKind::F32 && !known_test(test_segment(r.0)) {
            rest.push(r.0)
        } else {
            rest
        }
    }
}

proof fn lemma_first_unfit_at(records: Seq<(Seq<char>, ElementKind, Seq<u8>)>, i: int)
    requires
        0 <= i < records.len(),
        !fixture_record(records[i]),
        forall|j: int| 0 <= j < i ==> fixture_record(#[trigger] records[j]),
    ensures
        first_unfit(records) == Some(i),
{
    reveal(first_unfit);
    let k = choose|k: int|
        0 <= k < records.len() && !fixture_record(#[trigger] records[k]) && forall|j: int|
            0 <= j < k ==> fixture_record(#[trigger] records[j]);
    if k < i {
        assert(fixture_record(records[k]));
    }
    if i < k {
        assert(fixture_record(records[i]));
    }
}

proof fn lemma_fit_iff_all_fit(
    records: Seq<(Seq<char>, ElementKind, Seq<u8>)>,
    tensors: Map<Seq<char>, (ElementKind, Seq<u8>)>,
)
    requires
        lists_tensors(records, tensors),
    ensures
        (forall|i: int| 0 <= i < records.len() ==> fixture_record(#[trigger] records[i])) <==> (
        forall|k: Seq<char>|
            #[trigger] tensors.contains_key(k) ==> fixture_record((k, tensors[k].0, tensors[k].1))),
{
    if forall|i: int| 0 <= i < records.len() ==> fixture_record(#[trigger] records[i]) {
        assert forall|k: Seq<char>| #[trigger] tensors.contains_key(k) implies fixture_record(
            (k, tensors[k].0, tensors[k].1),
        ) by {
            let i = choose|i: int| 0 <= i < records.len() && records[i].0 == k;
            assert(fixture_record(records[i]));
        }
    }
    if forall|k: Seq<char>|
        #[trigger] tensors.contains_key(k) ==> fixture_record((k, tensors[k].0, tensors[k].1)) {
        assert forall|i: int| 0 <= i < records.len() implies fixture_record(#[trigger] records[i]) by {
            assert(tensors.contains_key(records[i].0));
        }
    }
}

proof fn lemma_last_of_is_record(
    records: Seq<(Seq<char>, ElementKind, Seq<u8>)>,
    kind: ElementKind,
    key: Seq<char>,
)
    requires
        last_of(records, kind, key) is Some,
    ensures
        exists|i: int|
            0 <= i < records.len() && #[trigger] records[i] == (key, kind, last_of(
                records,
                kind,
                key,
            ).unwrap()),
    decreases records.len(),
{
    if !(records.last().1 == kind && records.last().0 == key) {
        lemma_last_of_is_record(records.drop_last(), kind, key);
        let i = choose|i: int|
            0 <= i < records.drop_last().len() && #[trigger] records.drop_last()[i] == (
            key,
            kind,
            last_of(records.drop_last(), kind, key).unwrap(),
        );
        assert(records[i] == records.drop_last()[i]);
    } else {
        assert(records[records.len() - 1] == records.last());
    }
}

proof fn lemma_last_of_absent(
    records: Seq<(Seq<char>, ElementKind, Seq<u8>)>,
    kind: ElementKind,
    key: Seq<char>,
)
    requires
        forall|i: int| 0 <= i < records.len() ==> (#[trigger] records[i]).0 != key,
    ensures
        last_of(records, kind, key) is None,
    decreases records.len(),
{
    if records.len() > 0 {
        assert(records[records.len() - 1] == records.last());
        assert forall|i: int| 0 <= i < records.drop_last().len() implies (
        #[trigger] records.drop_last()[i]).0 != key by {
            assert(records.drop_last()[i] == records[i]);
        }
        lemma_last_of_absent(records.drop_last(), kind, key);
    }
}

proof fn lemma_last_of_listed(
    records: Seq<(Seq<char>, ElementKind, Seq<u8>)>,
    tensors: Map<Seq<char>, (ElementKind, Seq<u8>)>,
    kind: ElementKind,
    key: Seq<char>,
)
    requires
        lists_tensors(records, tensors),
    ensures
        last_of(records, kind, key) == tensor_of_kind(tensors, kind, key),
    decreases records.len(),
{
    if records.len() > 0 {
        let rest = records.drop_last();
        let last = records.last();
        assert(records[records.len() - 1] == last);
        if last.0 == key {
            assert(tensors.contains_key(key));
            if last.1 != kind {
                assert forall|i: int| 0 <= i < rest.len() implies (#[trigger] rest[i]).0 != key by {
                    assert(records[i] == rest[i]);
                    assert(records[i].0 != records[records.len() - 1].0);
                }
                lemma_last_of_absent(rest, kind, key);
            }
        } else {
            let sub = tensors.remove(last.0);
            assert(lists_tensors(rest, sub)) by {
                assert forall|i: int| 0 <= i < rest.len() implies sub.contains_key(
                    #[trigger] rest[i].0,
                ) && sub[rest[i].0] == (rest[i].1, rest[i].2) by {
                    assert(records[i] == rest[i]);
                    assert(records[i].0 != records[records.len() - 1].0);
                }
                assert forall|k: Seq<char>| #[trigger] sub.contains_key(k) implies exists|i: int|
                    0 <= i < rest.len() && rest[i].0 == k by {
                    assert(tensors.contains_key(k));
                    let i = choose|i: int| 0 <= i < records.len() && records[i].0 == k;
                    assert(i != records.len() - 1);
                    assert(rest[i] == records[i]);
                }
                assert forall|i: int, j: int| 0 <= i < j < rest.len() implies (
                #[trigger] rest[i]).0 != (#[trigger] rest[j]).0 by {
                    assert(records[i] == rest[i] && records[j] == rest[j]);
                }
            }
            lemma_last_of_listed(rest, sub, kind, key);
        }
    } else {
        if tensors.contains_key(key) {
            let i = choose|i: int| 0 <= i < records.len() && records[i].0 == key;
        }
    }
}

} // verus!
