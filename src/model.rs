use vstd::prelude::*;

use crate::error::GgufError;
use crate::header::{spec_read_header, Header, HEADER_LEN};
use crate::metadata::{
    diagnostics_model, duplicate_keys, entries_model, find, lookup, read_entries,
    spec_read_entries, Diagnostic, EntryModel,
};
use crate::tensor::{read_tensors, spec_read_tensors, tensor_model, tensors_model, TensorInfo, TensorModel};
use crate::value::{model_of, Value, ValueModel};

verus! {

/// Alignment of the data section when the metadata does not set one.
pub const DEFAULT_ALIGNMENT: u64 = 32;

/// Whether `a` is a positive power of two.
pub open spec fn is_pow2(a: nat) -> bool
    decreases a,
{
    if a == 0 {
        false
    } else if a == 1 {
        true
    } else {
        a % 2 == 0 && is_pow2(a / 2)
    }
}

/// The integer a value holds, for the integer kinds.
pub open spec fn integer_of(v: ValueModel) -> Option<int> {
    match v {
        ValueModel::UInt8(x) => Some(x as int),
        ValueModel::Int8(x) => Some(x as int),
        ValueModel::UInt16(x) => Some(x as int),
        ValueModel::Int16(x) => Some(x as int),
        ValueModel::UInt32(x) => Some(x as int),
        ValueModel::Int32(x) => Some(x as int),
        ValueModel::UInt64(x) => Some(x as int),
        ValueModel::Int64(x) => Some(x as int),
        _ => None,
    }
}

pub open spec fn alignment_key() -> Seq<char> {
    "general.alignment"@
}

/// The data-section alignment that the metadata sets: 32 unless the key holds an
/// integer, which must then be a positive power of two.
pub open spec fn spec_alignment(es: Seq<EntryModel>) -> Result<u64, GgufError> {
    match lookup(es, alignment_key()) {
        None => Ok(DEFAULT_ALIGNMENT),
        Some(v) => match integer_of(v) {
            Some(a) => if 0 < a <= u64::MAX && is_pow2(a as nat) {
                Ok(a as u64)
            } else {
                Err(GgufError::BadAlignment)
            },
            None => Ok(DEFAULT_ALIGNMENT),
        },
    }
}

/// The least multiple of `a` that is at least `p`.
pub open spec fn align_up(p: nat, a: nat) -> nat {
    if p % a == 0 {
        p
    } else {
        (p + (a - p % a)) as nat
    }
}

/// What a file decodes to.
pub struct ModelModel {
    pub file: Seq<u8>,
    pub header: Header,
    pub entries: Seq<EntryModel>,
    pub tensors: Seq<TensorModel>,
    /// Position reached after the last tensor-information record.
    pub info_end: nat,
    pub alignment: u64,
    pub data_origin: u64,
}

/// Decoding a whole file: header, metadata, tensor information, then the data-section
/// origin. Tensor payloads are not read.
pub open spec fn spec_open(s: Seq<u8>) -> Result<ModelModel, GgufError> {
    match spec_read_header(s) {
        Err(e) => Err(e),
        Ok(h) => match spec_read_entries(s, HEADER_LEN as int, h.n_kv as nat) {
            Err(e) => Err(e),
            Ok((es, p)) => match spec_read_tensors(s, p, h.n_tensors as nat) {
                Err(e) => Err(e),
                Ok((ts, q)) => match spec_alignment(es) {
                    Err(e) => Err(e),
                    Ok(a) => {
                        let o = align_up(q as nat, a as nat);
                        if o > u64::MAX || exists|i: int|
                            0 <= i < ts.len() && o + ts[i].rel_offset > u64::MAX {
                            Err(GgufError::SizeOverflow)
                        } else {
                            Ok(
                                ModelModel {
                                    file: s,
                                    header: h,
                                    entries: es,
                                    tensors: ts,
                                    info_end: q as nat,
                                    alignment: a,
                                    data_origin: o as u64,
                                },
                            )
                        }
                    },
                },
            },
        },
    }
}

/// A decoded GGUF file, holding the file's bytes for payload retrieval.
pub struct Model {
    data: Vec<u8>,
    header: Header,
    metadata: Vec<(String, Value)>,
    tensors: Vec<TensorInfo>,
    diagnostics: Vec<Diagnostic>,
    info_end: usize,
    alignment: u64,
    data_origin: u64,
}

impl View for Model {
    type V = ModelModel;

    closed spec fn view(&self) -> ModelModel {
        ModelModel {
            file: self.data@,
            header: self.header,
            entries: entries_model(self.metadata@),
            tensors: tensors_model(self.tensors@),
            info_end: self.info_end as nat,
            alignment: self.alignment,
            data_origin: self.data_origin,
        }
    }
}

impl Model {
    /// Consistency of the stored descriptors with the decoded file.
    pub closed spec fn wf(&self) -> bool {
        &&& spec_open(self.data@) == Ok::<ModelModel, GgufError>(self@)
        &&& names_unique(self@.tensors)
        &&& diagnostics_model(self.diagnostics@) == duplicate_keys(self@.entries)
        &&& forall|i: int| 0 <= i < self.tensors@.len()
            ==> #[trigger] self.tensors@[i].absolute_offset == self.data_origin + self.tensors@[i].rel_offset
    }
}

/// Whether `a` is a positive power of two.
fn check_pow2(a: u64) -> (r: bool)
    ensures
        r == is_pow2(a as nat),
{
    if a == 0 {
        return false;
    }
    let mut x = a;
    while x != 1
        invariant
            x > 0,
            is_pow2(x as nat) == is_pow2(a as nat),
        decreases x,
    {
        if x % 2 != 0 {
            return false;
        }
        x = x / 2;
    }
    true
}

/// The alignment that the metadata entries `es` set.
fn resolve_alignment(es: &Vec<(String, Value)>) -> (r: Result<u64, GgufError>)
    ensures
        r == spec_alignment(entries_model(es@)),
{
    let key = String::from_str("general.alignment");
    let a: u64 = match find(es, &key) {
        None => {
            return Ok(DEFAULT_ALIGNMENT);
        },
        Some(v) => match v {
            Value::UInt8(x) => *x as u64,
            Value::UInt16(x) => *x as u64,
            Value::UInt32(x) => *x as u64,
            Value::UInt64(x) => *x,
            Value::Int8(x) => if *x >= 0 {
                *x as u64
            } else {
                return Err(GgufError::BadAlignment);
            },
            Value::Int16(x) => if *x >= 0 {
                *x as u64
            } else {
                return Err(GgufError::BadAlignment);
            },
            Value::Int32(x) => if *x >= 0 {
                *x as u64
            } else {
                return Err(GgufError::BadAlignment);
            },
            Value::Int64(x) => if *x >= 0 {
                *x as u64
            } else {
                return Err(GgufError::BadAlignment);
            },
            _ => {
                return Ok(DEFAULT_ALIGNMENT);
            },
        },
    };
    if check_pow2(a) {
        Ok(a)
    } else {
        Err(GgufError::BadAlignment)
    }
}

/// The least multiple of `a` that is at least `p`, when it fits in 64 bits.
fn align_to(p: u64, a: u64) -> (r: Option<u64>)
    requires
        a > 0,
    ensures
        match r {
            Some(o) => o == align_up(p as nat, a as nat),
            None => align_up(p as nat, a as nat) > u64::MAX,
        },
{
    let rem = p % a;
    if rem == 0 {
        Some(p)
    } else {
        p.checked_add(a - rem)
    }
}

impl Model {
    /// Decodes the GGUF file whose bytes are `data`: header, metadata and tensor
    /// information. Payloads are read later, by `load`.
    pub fn open(data: Vec<u8>) -> (r: Result<Model, GgufError>)
        ensures
            match r {
                Ok(m) => m.wf() && spec_open(data@) == Ok::<ModelModel, GgufError>(m@)
                    && names_unique(m@.tensors),
                Err(e) => spec_open(data@) == Err::<ModelModel, GgufError>(e),
            },
    {
        let header = Header::parse(data.as_slice())?;
        let (metadata, diagnostics, p) = read_entries(data.as_slice(), HEADER_LEN, header.n_kv)?;
        let (mut tensors, q) = read_tensors(data.as_slice(), p, header.n_tensors)?;
        let alignment = resolve_alignment(&metadata)?;
        let data_origin = match align_to(q as u64, alignment) {
            Some(o) => o,
            None => {
                return Err(GgufError::SizeOverflow);
            },
        };
        let ghost ts0 = tensors_model(tensors@);
        let mut i: usize = 0;
        while i < tensors.len()
            invariant
                i <= tensors@.len(),
                tensors_model(tensors@) == ts0,
                spec_read_header(data@) == Ok::<Header, GgufError>(header),
                spec_read_entries(data@, HEADER_LEN as int, header.n_kv as nat) == Ok::<(Seq<EntryModel>, int), GgufError>((entries_model(metadata@), p as int)),
                spec_read_tensors(data@, p as int, header.n_tensors as nat) == Ok::<(Seq<TensorModel>, int), GgufError>((ts0, q as int)),
                spec_alignment(entries_model(metadata@)) == Ok::<u64, GgufError>(alignment),
                data_origin == align_up(q as nat, alignment as nat),
                forall|j: int| 0 <= j < i ==> #[trigger] tensors@[j].absolute_offset == data_origin + tensors@[j].rel_offset,
            decreases tensors@.len() - i,
        {
            match data_origin.checked_add(tensors[i].rel_offset) {
                Some(x) => {
                    let ghost before = tensors@;
                    tensors[i].absolute_offset = x;
                    assert(tensors_model(tensors@) =~= tensors_model(before)) by {
                        assert forall|j: int| 0 <= j < tensors@.len() implies #[trigger] tensor_model(tensors@[j]) == tensor_model(before[j]) by {}
                    }
                },
                None => {
                    assert(ts0[i as int].rel_offset == tensors@[i as int].rel_offset);
                    return Err(GgufError::SizeOverflow);
                },
            }
            i = i + 1;
        }
        assert forall|j: int| 0 <= j < ts0.len() implies data_origin + ts0[j].rel_offset <= u64::MAX by {
            assert(ts0[j].rel_offset == tensors@[j].rel_offset);
            assert(tensors@[j].absolute_offset == data_origin + tensors@[j].rel_offset);
        }
        proof {
            lemma_read_tensors_unique(data@, p as int, header.n_tensors as nat);
        }
        Ok(Model { data, header, metadata, tensors, diagnostics, info_end: q, alignment, data_origin })
    }
}

/// Start of the payload of the `j`-th tensor within the file.
pub open spec fn payload_start(m: ModelModel, j: int) -> int {
    m.data_origin + m.tensors[j].rel_offset
}

/// End of the payload of the `j`-th tensor within the file.
pub open spec fn payload_end(m: ModelModel, j: int) -> int {
    payload_start(m, j) + m.tensors[j].byte_size
}

/// Whether no two descriptors share a name.
pub open spec fn names_unique(ts: Seq<TensorModel>) -> bool {
    forall|i: int, j: int| 0 <= i < j < ts.len() ==> ts[i].name != ts[j].name
}

proof fn lemma_read_tensors_unique(s: Seq<u8>, p: int, n: nat)
    requires
        spec_read_tensors(s, p, n) is Ok,
    ensures
        names_unique(spec_read_tensors(s, p, n)->Ok_0.0),
    decreases n,
{
    if n > 0 {
        lemma_read_tensors_unique(s, p, (n - 1) as nat);
        let ts = spec_read_tensors(s, p, (n - 1) as nat)->Ok_0.0;
        let all = spec_read_tensors(s, p, n)->Ok_0.0;
        assert forall|i: int, j: int| 0 <= i < j < all.len() implies all[i].name != all[j].name by {
            if j == ts.len() {
                assert(all[i] == ts[i]);
            } else {
                assert(all[i] == ts[i] && all[j] == ts[j]);
            }
        }
    }
}

impl Model {
    /// The header fields.
    pub fn header(&self) -> (r: Header)
        ensures
            r == self@.header,
    {
        self.header
    }

    /// Tensor descriptors in declared order, each with its absolute offset filled in.
    pub fn tensors(&self) -> (r: &Vec<TensorInfo>)
        requires
            self.wf(),
        ensures
            tensors_model(r@) == self@.tensors,
            forall|i: int| 0 <= i < r@.len() ==> #[trigger] r@[i].absolute_offset == payload_start(self@, i),
    {
        proof {
            assert forall|i: int| 0 <= i < self.tensors@.len() implies #[trigger] self.tensors@[i].absolute_offset == payload_start(self@, i) by {
                assert(self@.tensors[i] == tensor_model(self.tensors@[i]));
            }
        }
        &self.tensors
    }

    /// Metadata entries in file order, a repeated key included each time it occurs.
    pub fn entries(&self) -> (r: &Vec<(String, Value)>)
        ensures
            entries_model(r@) == self@.entries,
    {
        &self.metadata
    }

    /// Non-fatal anomalies met while decoding.
    pub fn diagnostics(&self) -> (r: &Vec<Diagnostic>)
        requires
            self.wf(),
        ensures
            diagnostics_model(r@) == duplicate_keys(self@.entries),
    {
        &self.diagnostics
    }

    /// Alignment of the data section.
    pub fn data_alignment(&self) -> (r: u64)
        ensures
            r == self@.alignment,
    {
        self.alignment
    }

    /// Absolute offset at which the data section starts.
    pub fn data_origin(&self) -> (r: u64)
        ensures
            r == self@.data_origin,
    {
        self.data_origin
    }

    /// The value bound to `key`; of repeated entries the last one wins.
    pub fn get(&self, key: &str) -> (r: Option<&Value>)
        ensures
            match r {
                Some(v) => lookup(self@.entries, key@) == Some(model_of(*v)),
                None => lookup(self@.entries, key@) is None,
            },
    {
        let k = String::from_str(key);
        find(&self.metadata, &k)
    }

    /// Index of the descriptor named `name`.
    fn position_of(&self, name: &String) -> (r: Option<usize>)
        requires
            self.wf(),
        ensures
            match r {
                Some(i) => i < self@.tensors.len() && self@.tensors[i as int].name == name@,
                None => forall|j: int| 0 <= j < self@.tensors.len() ==> self@.tensors[j].name != name@,
            },
    {
        let mut i: usize = 0;
        while i < self.tensors.len()
            invariant
                i <= self.tensors@.len(),
                forall|j: int| 0 <= j < i ==> self.tensors@[j].name@ != name@,
            decreases self.tensors@.len() - i,
        {
            if self.tensors[i].name == *name {
                assert(self@.tensors[i as int] == tensor_model(self.tensors@[i as int]));
                return Some(i);
            }
            i = i + 1;
        }
        assert forall|j: int| 0 <= j < self@.tensors.len() implies self@.tensors[j].name != name@ by {
            assert(self@.tensors[j] == tensor_model(self.tensors@[j]));
        }
        None
    }

    /// The descriptor named `name`.
    pub fn tensor(&self, name: &str) -> (r: Option<&TensorInfo>)
        requires
            self.wf(),
        ensures
            match r {
                Some(t) => exists|j: int| 0 <= j < self@.tensors.len() && tensor_model(*t) == self@.tensors[j]
                    && t.name@ == name@ && t.absolute_offset == payload_start(self@, j),
                None => forall|j: int| 0 <= j < self@.tensors.len() ==> self@.tensors[j].name != name@,
            },
    {
        let k = String::from_str(name);
        match self.position_of(&k) {
            Some(i) => {
                assert(self@.tensors[i as int] == tensor_model(self.tensors@[i as int]));
                assert(self.tensors@[i as int].absolute_offset == self.data_origin + self.tensors@[i as int].rel_offset);
                assert(payload_start(self@, i as int) == self.tensors@[i as int].absolute_offset);
                Some(&self.tensors[i])
            },
            None => None,
        }
    }

    /// The payload bytes of the tensor named `name`, read from the file.
    pub fn load(&self, name: &str) -> (r: Result<Vec<u8>, GgufError>)
        requires
            self.wf(),
        ensures
            match r {
                Ok(b) => exists|j: int| 0 <= j < self@.tensors.len() && self@.tensors[j].name == name@
                    && payload_end(self@, j) <= self@.file.len()
                    && b@ == self@.file.subrange(payload_start(self@, j), payload_end(self@, j))
                    && b@.len() == self@.tensors[j].byte_size,
                Err(GgufError::TensorNotFound(n)) => n@ == name@
                    && forall|j: int| 0 <= j < self@.tensors.len() ==> self@.tensors[j].name != name@,
                Err(e) => e == GgufError::Truncated && exists|j: int| 0 <= j < self@.tensors.len()
                    && self@.tensors[j].name == name@ && payload_end(self@, j) > self@.file.len(),
            },
            forall|j: int| 0 <= j < self@.tensors.len() && self@.tensors[j].name == name@
                && payload_end(self@, j) > self@.file.len() ==> r == Err::<Vec<u8>, GgufError>(GgufError::Truncated),
    {
        let k = String::from_str(name);
        let i = match self.position_of(&k) {
            Some(i) => i,
            None => {
                return Err(GgufError::TensorNotFound(k));
            },
        };
        assert(self@.tensors[i as int] == tensor_model(self.tensors@[i as int]));
        assert(self.tensors@[i as int].absolute_offset == self.data_origin + self.tensors@[i as int].rel_offset);
        assert(payload_start(self@, i as int) == self.tensors@[i as int].absolute_offset);
        let start = self.tensors[i].absolute_offset;
        let file_len = self.data.len();
        let end = match start.checked_add(self.tensors[i].byte_size) {
            Some(e) => e,
            None => {
                assert(payload_end(self@, i as int) > self@.file.len());
                assert(self@.tensors[i as int].name == name@ && payload_end(self@, i as int) > self@.file.len());
                return Err(GgufError::Truncated);
            },
        };
        if end > file_len as u64 {
            assert(self@.tensors[i as int].name == name@ && payload_end(self@, i as int) > self@.file.len());
            return Err(GgufError::Truncated);
        }
        let mut out: Vec<u8> = Vec::new();
        let mut c = start as usize;
        while c < end as usize
            invariant
                start <= c <= end <= self.data@.len(),
                out@ == self.data@.subrange(start as int, c as int),
            decreases end - c,
        {
            out.push(self.data[c]);
            c = c + 1;
            assert(out@ =~= self.data@.subrange(start as int, c as int));
        }
        Ok(out)
    }
}

/// The unsigned integer of a 32- or 64-bit unsigned value, widened to 64 bits.
pub open spec fn u64_of(v: Option<ValueModel>) -> Option<u64> {
    match v {
        Some(ValueModel::UInt32(x)) => Some(x as u64),
        Some(ValueModel::UInt64(x)) => Some(x),
        _ => None,
    }
}

/// The model architecture named by the metadata, when it is a string.
pub open spec fn spec_architecture(es: Seq<EntryModel>) -> Option<Seq<char>> {
    match lookup(es, "general.architecture"@) {
        Some(ValueModel::String(a)) => Some(a),
        _ => None,
    }
}

/// The unsigned integer under the key `<arch>` + `suffix`.
pub open spec fn arch_u64(es: Seq<EntryModel>, suffix: Seq<char>) -> Option<u64> {
    match spec_architecture(es) {
        Some(a) => u64_of(lookup(es, a + suffix)),
        None => None,
    }
}

impl Model {
    /// The value under `key` when it is a 32- or 64-bit unsigned integer.
    pub fn get_u64(&self, key: &str) -> (r: Option<u64>)
        ensures
            r == u64_of(lookup(self@.entries, key@)),
    {
        match self.get(key) {
            Some(Value::UInt32(x)) => Some(*x as u64),
            Some(Value::UInt64(x)) => Some(*x),
            _ => None,
        }
    }

    /// Value of `general.architecture`, when it is a string.
    pub fn architecture(&self) -> (r: Option<String>)
        ensures
            match r {
                Some(a) => spec_architecture(self@.entries) == Some(a@),
                None => spec_architecture(self@.entries) is None,
            },
    {
        match self.get("general.architecture") {
            Some(Value::String(a)) => Some(a.clone()),
            _ => None,
        }
    }

    /// Value of `general.alignment`, when it is a 32- or 64-bit unsigned integer.
    pub fn alignment_value(&self) -> (r: Option<u64>)
        ensures
            r == u64_of(lookup(self@.entries, "general.alignment"@)),
    {
        self.get_u64("general.alignment")
    }

    /// Value of `general.file_type`, when it is a 32- or 64-bit unsigned integer.
    pub fn file_type(&self) -> (r: Option<u64>)
        ensures
            r == u64_of(lookup(self@.entries, "general.file_type"@)),
    {
        self.get_u64("general.file_type")
    }

    /// The unsigned integer under `<arch>` followed by `suffix`.
    pub fn arch_value(&self, suffix: &str) -> (r: Option<u64>)
        ensures
            r == arch_u64(self@.entries, suffix@),
    {
        match self.architecture() {
            Some(a) => {
                let mut key = a;
                key.append(suffix);
                self.get_u64(key.as_str())
            },
            None => None,
        }
    }

    /// Value of `<arch>.context_length`.
    pub fn context_length(&self) -> (r: Option<u64>)
        ensures
            r == arch_u64(self@.entries, ".context_length"@),
    {
        self.arch_value(".context_length")
    }

    /// Value of `<arch>.embedding_length`.
    pub fn embedding_length(&self) -> (r: Option<u64>)
        ensures
            r == arch_u64(self@.entries, ".embedding_length"@),
    {
        self.arch_value(".embedding_length")
    }

    /// Value of `<arch>.block_count`.
    pub fn block_count(&self) -> (r: Option<u64>)
        ensures
            r == arch_u64(self@.entries, ".block_count"@),
    {
        self.arch_value(".block_count")
    }

    /// Value of `<arch>.attention.head_count`.
    pub fn head_count(&self) -> (r: Option<u64>)
        ensures
            r == arch_u64(self@.entries, ".attention.head_count"@),
    {
        self.arch_value(".attention.head_count")
    }

    /// Value of `<arch>.attention.head_count_kv`.
    pub fn head_count_kv(&self) -> (r: Option<u64>)
        ensures
            r == arch_u64(self@.entries, ".attention.head_count_kv"@),
    {
        self.arch_value(".attention.head_count_kv")
    }
}

} // verus!
