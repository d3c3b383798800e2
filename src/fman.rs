//! The secret container: a header with the password verifier and salt, an
//! encrypted index of entry names, and one encrypted entry per name, at the
//! same position.

use vstd::prelude::*;
use crate::codec;
use crate::crypto::{
    self, aes256_cbc, derived_key, padded_len, sha256_digest, IV_LEN, MAX_CIPHERTEXT,
    MAX_PLAINTEXT,
};
use crate::error::StoreError;
use vstd::string::*;
use vstd::utf8::encode_utf8;

verus! {

#[verifier::external_type_specification]
#[verifier::external_body]
pub struct ExBincodeErrorKind(bincode::ErrorKind);

/// The fields of an open entry: description, user, e-mail, notes, password.
pub type Record = (Seq<char>, Seq<char>, Seq<char>, Seq<char>, Seq<char>);

/// A sealed blob: its initialization vector and its ciphertext.
pub type SealedView = (Seq<u8>, Seq<u8>);

/// A whole container: verifier, salt, index IV, index ciphertext, entries.
pub type FileView = (Seq<u8>, Seq<u8>, Seq<u8>, Seq<u8>, Seq<(Seq<u8>, Seq<u8>)>);

/// `n` as eight little-endian bytes, as bincode writes lengths.
pub open spec fn le_u64(n: nat) -> Seq<u8> {
    seq![
        (n % 0x100) as u8,
        (n / 0x100 % 0x100) as u8,
        (n / 0x10000 % 0x100) as u8,
        (n / 0x1000000 % 0x100) as u8,
        (n / 0x100000000 % 0x100) as u8,
        (n / 0x10000000000 % 0x100) as u8,
        (n / 0x1000000000000 % 0x100) as u8,
        (n / 0x100000000000000 % 0x100) as u8,
    ]
}

/// A string in bincode: its UTF-8 length, then its UTF-8 bytes.
pub open spec fn str_bytes(s: Seq<char>) -> Seq<u8> {
    le_u64(encode_utf8(s).len()) + encode_utf8(s)
}

/// The strings of `names`, one after the other.
pub open spec fn strs_bytes(names: Seq<Seq<char>>) -> Seq<u8>
    decreases names.len(),
{
    if names.len() == 0 {
        Seq::empty()
    } else {
        strs_bytes(names.drop_last()) + str_bytes(names.last())
    }
}

/// A list of names in bincode: its length, then each name.
pub open spec fn names_bytes(names: Seq<Seq<char>>) -> Seq<u8> {
    le_u64(names.len()) + strs_bytes(names)
}

/// The five fields of an entry in bincode, in order, with nothing between.
pub open spec fn record_bytes(r: Record) -> Seq<u8> {
    str_bytes(r.0) + str_bytes(r.1) + str_bytes(r.2) + str_bytes(r.3) + str_bytes(r.4)
}

/// A byte vector in bincode: its length, then its bytes.
pub open spec fn vec_bytes(b: Seq<u8>) -> Seq<u8> {
    le_u64(b.len()) + b
}

/// Sealed blobs in bincode, one after the other: the IV as raw bytes (a
/// fixed-size array), then the ciphertext as a byte vector.
pub open spec fn sealed_list_bytes(es: Seq<(Seq<u8>, Seq<u8>)>) -> Seq<u8>
    decreases es.len(),
{
    if es.len() == 0 {
        Seq::empty()
    } else {
        sealed_list_bytes(es.drop_last()) + es.last().0 + vec_bytes(es.last().1)
    }
}

/// A container in bincode: verifier, salt and index IV as raw bytes, the
/// index ciphertext, then the number of entries and each entry.
pub open spec fn file_bytes(f: FileView) -> Seq<u8> {
    f.0 + f.1 + f.2 + vec_bytes(f.3) + le_u64(f.4.len()) + sealed_list_bytes(f.4)
}

/// The view has the fixed sizes of a container's arrays.
pub open spec fn well_shaped(f: FileView) -> bool {
    &&& f.0.len() == 32
    &&& f.1.len() == 16
    &&& f.2.len() == 16
    &&& forall|i: int| 0 <= i < f.4.len() ==> (#[trigger] f.4[i]).0.len() == 16
}

#[derive(Debug, Clone, PartialEq)]
pub struct Head {
    pub pw_hash: [u8; 32],
    pub salt: [u8; 16],
}

#[derive(Debug, Clone, PartialEq)]
pub struct Metadata {
    pub iv: [u8; 16],
    pub content: Vec<u8>,
}

#[derive(Debug, Clone, PartialEq)]
pub struct Entry {
    pub iv: [u8; 16],
    pub content: Vec<u8>,
}

#[derive(Debug, Clone, PartialEq)]
pub struct File {
    pub head: Head,
    pub metadata: Metadata,
    pub entries: Vec<Entry>,
}

#[derive(Debug, Clone, PartialEq)]
pub struct OpenEntry {
    pub desc: String,
    pub user: String,
    pub email: String,
    pub notes: String,
    pub pw: String,
}

impl View for OpenEntry {
    type V = Record;

    open spec fn view(&self) -> Record {
        (self.desc@, self.user@, self.email@, self.notes@, self.pw@)
    }
}

impl View for Entry {
    type V = SealedView;

    open spec fn view(&self) -> SealedView {
        (self.iv@, self.content@)
    }
}

impl View for File {
    type V = FileView;

    open spec fn view(&self) -> FileView {
        (
            self.head.pw_hash@,
            self.head.salt@,
            self.metadata.iv@,
            self.metadata.content@,
            self.entries@.map_values(|e: Entry| e@),
        )
    }
}

/// The characters of each name.
pub open spec fn names_view(names: Seq<String>) -> Seq<Seq<char>> {
    names.map_values(|s: String| s@)
}

/// The fields of an optional entry.
pub open spec fn opt_view(o: Option<OpenEntry>) -> Option<Record> {
    match o {
        Some(e) => Some(e@),
        None => None,
    }
}

/// The record stored under `name`, if `names` holds it.
pub open spec fn lookup(names: Seq<Seq<char>>, records: Seq<Record>, name: Seq<char>) -> Option<
    Record,
> {
    if names.contains(name) {
        Some(records[names.index_of(name)])
    } else {
        None
    }
}

impl File {
    /// The container stores `names`, in this order, with `records` at the
    /// same positions, all sealed under `key`: the index decrypts to the
    /// names, there is one entry per name, each entry decrypts to its
    /// record, every ciphertext can be decrypted in one call, and no name
    /// occurs twice.
    pub open spec fn holds(&self, key: Seq<u8>, names: Seq<Seq<char>>, records: Seq<Record>) -> bool {
        &&& self.metadata.content@ == aes256_cbc(key, self.metadata.iv@, names_bytes(names))
        &&& self.metadata.content@.len() <= MAX_CIPHERTEXT
        &&& self.entries@.len() == names.len()
        &&& records.len() == names.len()
        &&& forall|i: int|
            0 <= i < names.len() ==> (#[trigger] self.entries@[i]).content@ == aes256_cbc(
                key,
                self.entries@[i].iv@,
                record_bytes(records[i]),
            ) && self.entries@[i].content@.len() <= MAX_CIPHERTEXT
        &&& names.no_duplicates()
    }

    /// The key that `password` gives for this container.
    pub open spec fn key_for(&self, password: Seq<char>) -> Seq<u8> {
        derived_key(password, self.head.salt@)
    }

    /// `iv` already seals the index or one of the entries.
    pub open spec fn iv_used(&self, iv: Seq<u8>) -> bool {
        iv == self.metadata.iv@ || exists|i: int|
            0 <= i < self.entries@.len() && (#[trigger] self.entries@[i]).iv@ == iv
    }
}

/// What adding `name` with `record` under the IVs `entry_iv` and `index_iv`
/// gives, on a container `f` that stores `names`: a name already stored is
/// refused, an IV already in use (or the same IV twice) counts as a failed
/// random draw, and an encoding too long for the cipher is refused by it.
pub open spec fn add_outcome(
    f: File,
    names: Seq<Seq<char>>,
    name: Seq<char>,
    record: Record,
    entry_iv: Seq<u8>,
    index_iv: Seq<u8>,
) -> Result<(), StoreError> {
    if names.contains(name) {
        Err(StoreError::DuplicateEntry)
    } else if f.iv_used(entry_iv) || f.iv_used(index_iv) || entry_iv == index_iv {
        Err(StoreError::RandomnessError)
    } else if record_bytes(record).len() > MAX_PLAINTEXT || names_bytes(names.push(name)).len()
        > MAX_PLAINTEXT {
        Err(StoreError::CryptoError)
    } else {
        Ok(())
    }
}

/// What removing `name` with the new index IV `index_iv` gives, on a
/// container `f` that stores `names`: an absent name is no change, an IV
/// already in use counts as a failed random draw, and an index encoding too
/// long for the cipher is refused by it.
pub open spec fn remove_outcome(f: File, names: Seq<Seq<char>>, name: Seq<char>, index_iv: Seq<u8>) -> Result<
    (),
    StoreError,
> {
    if !names.contains(name) {
        Ok(())
    } else if f.iv_used(index_iv) {
        Err(StoreError::RandomnessError)
    } else if names_bytes(names.remove(names.index_of(name))).len() > MAX_PLAINTEXT {
        Err(StoreError::CryptoError)
    } else {
        Ok(())
    }
}

/// Relies on bincode::serialize of a `Vec<String>`, which sets no size
/// limit and knows every length: the count, then each string.
#[verifier::external_body]
fn names_to_bytes(names: &Vec<String>) -> (r: Result<Vec<u8>, Box<bincode::ErrorKind>>)
    ensures
        r is Ok && r->Ok_0@ == names_bytes(names_view(names@)),
{
    bincode::serialize(names)
}

/// Relies on bincode::deserialize into a `Vec<String>`: the encoding of a
/// list of names reads back as that list.
#[verifier::external_body]
fn names_from_bytes(bytes: &[u8]) -> (r: Result<Vec<String>, Box<bincode::ErrorKind>>)
    ensures
        forall|w: Seq<Seq<char>>|
            bytes@ == #[trigger] names_bytes(w) ==> (r is Ok && names_view(r->Ok_0@) == w),
{
    bincode::deserialize(bytes)
}

/// Relies on bincode::serialize of the five fields as a tuple, which
/// bincode lays out as it lays out a struct of those fields.
#[verifier::external_body]
fn record_to_bytes(e: &OpenEntry) -> (r: Result<Vec<u8>, Box<bincode::ErrorKind>>)
    ensures
        r is Ok && r->Ok_0@ == record_bytes(e@),
{
    bincode::serialize(&(&e.desc, &e.user, &e.email, &e.notes, &e.pw))
}

/// Relies on bincode::deserialize into a tuple of five strings: the
/// encoding of a record reads back as that record.
#[verifier::external_body]
fn record_from_bytes(bytes: &[u8]) -> (r: Result<OpenEntry, Box<bincode::ErrorKind>>)
    ensures
        forall|w: Record| bytes@ == #[trigger] record_bytes(w) ==> (r is Ok && r->Ok_0@ == w),
{
    match bincode::deserialize::<(String, String, String, String, String)>(bytes) {
        Ok((desc, user, email, notes, pw)) => Ok(OpenEntry { desc, user, email, notes, pw }),
        Err(e) => Err(e),
    }
}

/// Relies on bincode::serialize of the container's fields as nested
/// tuples, laid out as bincode lays out the structs: arrays as raw bytes,
/// vectors with their length first.
#[verifier::external_body]
fn file_to_bytes(f: &File) -> (r: Result<Vec<u8>, Box<bincode::ErrorKind>>)
    ensures
        r is Ok && r->Ok_0@ == file_bytes(f@),
{
    let entries: Vec<(&[u8; 16], &Vec<u8>)> = f.entries.iter().map(|e| (&e.iv, &e.content)).collect();
    let head = (&f.head.pw_hash, &f.head.salt);
    bincode::serialize(&(head, (&f.metadata.iv, &f.metadata.content), &entries))
}

/// Relies on bincode::deserialize into the container's nested tuples: the
/// encoding of a container whose arrays have their fixed sizes reads back
/// as that container.
#[verifier::external_body]
fn file_from_bytes(bytes: &[u8]) -> (r: Result<File, Box<bincode::ErrorKind>>)
    ensures
        forall|w: FileView|
            well_shaped(w) && bytes@ == #[trigger] file_bytes(w) ==> (r is Ok && r->Ok_0@ == w),
{
    match bincode::deserialize::<(([u8; 32], [u8; 16]), ([u8; 16], Vec<u8>), Vec<([u8; 16], Vec<u8>)>)>(bytes) {
        Ok(((pw_hash, salt), (iv, content), entries)) => Ok(File {
            head: Head { pw_hash, salt },
            metadata: Metadata { iv, content },
            entries: entries.into_iter().map(|(iv, content)| Entry { iv, content }).collect(),
        }),
        Err(e) => Err(e),
    }
}

/// The sixteen bytes of `v` as an array.
fn to_array16(v: &Vec<u8>) -> (r: [u8; 16])
    requires
        v@.len() == IV_LEN,
    ensures
        r@ == v@,
{
    let mut a: [u8; 16] = [0u8; 16];
    let mut i: usize = 0;
    while i < IV_LEN
        invariant
            i <= IV_LEN,
            v@.len() == IV_LEN,
            forall|j: int| 0 <= j < i ==> a@[j] == v@[j],
        decreases IV_LEN - i,
    {
        a[i] = v[i];
        i = i + 1;
    }
    assert(a@ =~= v@);
    a
}

/// Sixteen fresh bytes from the secure random generator, for a salt or an
/// initialization vector.
fn fresh_bytes16() -> (r: Result<[u8; 16], StoreError>)
    ensures
        r matches Err(e) ==> e == StoreError::RandomnessError,
{
    match crypto::generate_bytes(IV_LEN) {
        Ok(bytes) => Ok(to_array16(&bytes)),
        Err(e) => Err(e),
    }
}

/// Whether two initialization vectors are equal.
fn same_iv(a: &[u8; 16], b: &[u8; 16]) -> (r: bool)
    ensures
        r == (a@ == b@),
{
    let mut i: usize = 0;
    while i < IV_LEN
        invariant
            i <= IV_LEN,
            forall|j: int| 0 <= j < i ==> a@[j] == b@[j],
        decreases IV_LEN - i,
    {
        if a[i] != b[i] {
            return false;
        }
        i = i + 1;
    }
    assert(a@ =~= b@);
    true
}

/// The position of `name` in `names`, if it is there.
fn position(names: &Vec<String>, name: &String) -> (r: Option<usize>)
    ensures
        r matches Some(i) ==> i < names@.len() && names@[i as int]@ == name@,
        r is None ==> !names_view(names@).contains(name@),
{
    let mut i: usize = 0;
    while i < names.len()
        invariant
            i <= names@.len(),
            forall|j: int| 0 <= j < i ==> names@[j]@ != name@,
        decreases names@.len() - i,
    {
        if names[i] == *name {
            return Some(i);
        }
        i = i + 1;
    }
    proof {
        if names_view(names@).contains(name@) {
            let k = choose|k: int| 0 <= k < names@.len() && names_view(names@)[k] == name@;
            assert(names@[k]@ == name@);
        }
    }
    None
}

/// In a list without duplicates, the index of an element is where it stands.
proof fn lemma_index_of_unique(names: Seq<Seq<char>>, i: int)
    requires
        names.no_duplicates(),
        0 <= i < names.len(),
    ensures
        names.contains(names[i]),
        names.index_of(names[i]) == i,
{
    assert(names.contains(names[i]));
}

/// Removing a position keeps a list free of duplicates.
proof fn lemma_remove_no_duplicates(names: Seq<Seq<char>>, i: int)
    requires
        names.no_duplicates(),
        0 <= i < names.len(),
    ensures
        names.remove(i).no_duplicates(),
{
    let s = names.remove(i);
    assert forall|a: int, b: int| 0 <= a < s.len() && 0 <= b < s.len() && a != b implies s[a]
        != s[b] by {
        let a2 = if a < i { a } else { a + 1 };
        let b2 = if b < i { b } else { b + 1 };
        assert(s[a] == names[a2]);
        assert(s[b] == names[b2]);
    }
}

impl File {
    /// Whether `iv` already seals the index or one of the entries.
    fn iv_in_use(&self, iv: &[u8; 16]) -> (r: bool)
        ensures
            r == self.iv_used(iv@),
    {
        if same_iv(iv, &self.metadata.iv) {
            return true;
        }
        let mut i: usize = 0;
        while i < self.entries.len()
            invariant
                i <= self.entries@.len(),
                iv@ != self.metadata.iv@,
                forall|j: int| 0 <= j < i ==> (#[trigger] self.entries@[j]).iv@ != iv@,
            decreases self.entries@.len() - i,
        {
            if same_iv(iv, &self.entries[i].iv) {
                return true;
            }
            i = i + 1;
        }
        false
    }

    /// Decrypts and decodes the index under `key`.
    fn read_index(&self, key: &[u8; 32]) -> (r: Result<Vec<String>, StoreError>)
        ensures
            forall|ns: Seq<Seq<char>>, rs: Seq<Record>|
                #[trigger] self.holds(key@, ns, rs) ==> (r is Ok && names_view(r->Ok_0@) == ns),
            r matches Err(e) ==> e == StoreError::CryptoError || e
                == StoreError::SerializationError,
    {
        let plain = match crypto::decrypt(
            self.metadata.content.as_slice(),
            self.metadata.iv.as_slice(),
            key.as_slice(),
        ) {
            Ok(p) => p,
            Err(_) => return Err(StoreError::CryptoError),
        };
        match names_from_bytes(plain.as_slice()) {
            Ok(names) => Ok(names),
            Err(_) => Err(StoreError::SerializationError),
        }
    }
}

/// Serializes `names` and encrypts them under `key` and `iv`.
fn seal_index(names: &Vec<String>, key: &[u8; 32], iv: &[u8; 16]) -> (r: Result<Vec<u8>, StoreError>)
    ensures
        names_bytes(names_view(names@)).len() <= MAX_PLAINTEXT ==> (r is Ok && r->Ok_0@
            == aes256_cbc(key@, iv@, names_bytes(names_view(names@))) && r->Ok_0@.len()
            <= MAX_CIPHERTEXT),
        names_bytes(names_view(names@)).len() > MAX_PLAINTEXT ==> r == Err::<Vec<u8>, StoreError>(
            StoreError::CryptoError,
        ),
{
    let plain = match names_to_bytes(names) {
        Ok(b) => b,
        Err(_) => return Err(StoreError::SerializationError),
    };
    crypto::encrypt(plain.as_slice(), iv.as_slice(), key.as_slice())
}

/// Serializes an open entry and encrypts it under `key` and `iv`.
fn seal_entry(entry: &OpenEntry, key: &[u8; 32], iv: [u8; 16]) -> (r: Result<Entry, StoreError>)
    ensures
        record_bytes(entry@).len() <= MAX_PLAINTEXT ==> (r is Ok && r->Ok_0.iv == iv
            && r->Ok_0.content@ == aes256_cbc(key@, iv@, record_bytes(entry@))
            && r->Ok_0.content@.len() <= MAX_CIPHERTEXT),
        record_bytes(entry@).len() > MAX_PLAINTEXT ==> r == Err::<Entry, StoreError>(
            StoreError::CryptoError,
        ),
{
    let plain = match record_to_bytes(entry) {
        Ok(b) => b,
        Err(_) => return Err(StoreError::SerializationError),
    };
    match crypto::encrypt(plain.as_slice(), iv.as_slice(), key.as_slice()) {
        Ok(content) => Ok(Entry { iv, content }),
        Err(e) => Err(e),
    }
}

impl File {
    /// Builds an empty container protected by `pw`, with `salt` and the
    /// index IV `iv` already drawn.
    pub fn new_with(pw: String, salt: [u8; 16], iv: [u8; 16]) -> (f: File)
        ensures
            f.holds(derived_key(pw@, salt@), seq![], seq![]),
            f.head.salt == salt,
            f.metadata.iv == iv,
            f.head.pw_hash@ == sha256_digest(encode_utf8(pw@) + salt@),
    {
        let pw_hash = crypto::derive_key(pw.clone(), salt.as_slice());
        let key = crypto::derive_key(pw, salt.as_slice());
        let names: Vec<String> = Vec::new();
        assert(names_view(names@) =~= Seq::<Seq<char>>::empty());
        assert(names_bytes(Seq::<Seq<char>>::empty()).len() == 8);
        let content = match seal_index(&names, &key, &iv) {
            Ok(c) => c,
            Err(_) => {
                proof {
                    assert(false);
                }
                Vec::new()
            },
        };
        assert(Seq::<Seq<char>>::empty().no_duplicates());
        File { head: Head { pw_hash, salt }, metadata: Metadata { iv, content }, entries: Vec::new() }
    }

    /// Creates an empty container protected by `pw`, with a fresh salt and
    /// a fresh index IV from the secure generator.
    pub fn try_new(pw: String) -> (r: Result<File, StoreError>)
        ensures
            r matches Ok(f) ==> f.holds(f.key_for(pw@), seq![], seq![]) && f.head.pw_hash@
                == sha256_digest(encode_utf8(pw@) + f.head.salt@),
            r is Err ==> r == Err::<File, StoreError>(StoreError::RandomnessError),
    {
        let salt = fresh_bytes16()?;
        let iv = fresh_bytes16()?;
        Ok(File::new_with(pw, salt, iv))
    }

    /// Whether `password` matches the verifier in the header. Every byte is
    /// compared, whatever the earlier ones were.
    pub fn check_password(&self, password: String) -> (r: bool)
        ensures
            r == (self.head.pw_hash@ == sha256_digest(encode_utf8(password@) + self.head.salt@)),
    {
        let computed = crypto::derive_key(password, self.head.salt.as_slice());
        let mut diff: u8 = 0;
        let mut i: usize = 0;
        while i < 32
            invariant
                i <= 32,
                diff == 0 <==> forall|j: int| 0 <= j < i ==> computed@[j] == self.head.pw_hash@[j],
            decreases 32 - i,
        {
            let a = computed[i];
            let b = self.head.pw_hash[i];
            let d = diff | (a ^ b);
            assert(d == 0 <==> (diff == 0 && a == b)) by (bit_vector)
                requires
                    d == diff | (a ^ b),
            ;
            diff = d;
            i = i + 1;
        }
        proof {
            if diff == 0 {
                assert(computed@ =~= self.head.pw_hash@);
            }
        }
        diff == 0
    }

    /// Adds `entry` under `name`, sealing the entry under `entry_iv` and the
    /// extended index under `index_iv`, both already drawn. The result is
    /// decided by what the container stores and by the two IVs; on any
    /// failure the container is left as it was.
    pub fn add_entry_with_ivs(
        &mut self,
        masterpw: String,
        name: String,
        entry: OpenEntry,
        entry_iv: [u8; 16],
        index_iv: [u8; 16],
    ) -> (r: Result<(), StoreError>)
        ensures
            forall|ns: Seq<Seq<char>>, rs: Seq<Record>|
                #[trigger] old(self).holds(old(self).key_for(masterpw@), ns, rs) ==> r == add_outcome(
                    *old(self),
                    ns,
                    name@,
                    entry@,
                    entry_iv@,
                    index_iv@,
                ) && (r is Ok ==> final(self).holds(
                    old(self).key_for(masterpw@),
                    ns.push(name@),
                    rs.push(entry@),
                )),
            r is Err ==> *final(self) == *old(self),
            r is Ok ==> final(self).head == old(self).head && final(self).metadata.iv == index_iv
                && final(self).entries@.len() == old(self).entries@.len() + 1 && final(self).entries@.subrange(0, old(self).entries@.len() as int) == old(self).entries@ && final(self).entries@.last().iv == entry_iv && !old(self).iv_used(entry_iv@) && !old(self).iv_used(index_iv@) && entry_iv@ != index_iv@,
    {
        let ghost key_v = self.key_for(masterpw@);
        let key = crypto::derive_key(masterpw, self.head.salt.as_slice());
        let mut names = self.read_index(&key)?;
        if let Some(i) = position(&names, &name) {
            proof {
                assert forall|ns: Seq<Seq<char>>, rs: Seq<Record>|
                    #[trigger] self.holds(key_v, ns, rs) implies ns.contains(name@) by {
                    assert(ns[i as int] == name@);
                }
            }
            return Err(StoreError::DuplicateEntry);
        }
        if self.iv_in_use(&entry_iv) || self.iv_in_use(&index_iv) || same_iv(&entry_iv, &index_iv) {
            return Err(StoreError::RandomnessError);
        }
        let ghost old_names = names@;
        let sealed = seal_entry(&entry, &key, entry_iv)?;
        names.push(name);
        proof {
            assert(names_view(names@) =~= names_view(old_names).push(name@));
        }
        let content = seal_index(&names, &key, &index_iv)?;
        let ghost old_self = *self;
        self.entries.push(sealed);
        self.metadata = Metadata { iv: index_iv, content };
        proof {
            assert(self.entries@.subrange(0, old_self.entries@.len() as int) =~= old_self.entries@);
            assert forall|ns: Seq<Seq<char>>, rs: Seq<Record>|
                #[trigger] old_self.holds(key_v, ns, rs) implies Ok::<(), StoreError>(())
                == add_outcome(old_self, ns, name@, entry@, entry_iv@, index_iv@) && self.holds(
                    key_v,
                    ns.push(name@),
                    rs.push(entry@),
                ) by {
                assert(names_view(old_names) == ns);
                let ns2 = ns.push(name@);
                let rs2 = rs.push(entry@);
                assert forall|i: int| 0 <= i < ns2.len() implies (#[trigger] self.entries@[i]).content@
                    == aes256_cbc(key_v, self.entries@[i].iv@, record_bytes(rs2[i]))
                    && self.entries@[i].content@.len() <= MAX_CIPHERTEXT by {
                    if i < ns.len() {
                        assert(self.entries@[i] == old_self.entries@[i]);
                    }
                }
                assert forall|a: int, b: int|
                    0 <= a < ns2.len() && 0 <= b < ns2.len() && a != b implies ns2[a] != ns2[b] by {
                    if a < ns.len() && b < ns.len() {
                    } else if a < ns.len() {
                        assert(ns.contains(ns2[a]));
                    } else {
                        assert(ns.contains(ns2[b]));
                    }
                }
            }
        }
        Ok(())
    }

    /// Adds `entry` under `name`: a name already stored is refused; else two
    /// fresh IVs are drawn from the secure generator, the entry is sealed
    /// under one and appended, and the extended index is sealed under the
    /// other. On any failure the container is left as it was.
    pub fn add_entry(&mut self, masterpw: String, name: String, entry: OpenEntry) -> (r: Result<
        (),
        StoreError,
    >)
        ensures
            forall|ns: Seq<Seq<char>>, rs: Seq<Record>|
                #[trigger] old(self).holds(old(self).key_for(masterpw@), ns, rs) ==> (ns.contains(
                    name@,
                ) ==> r == Err::<(), StoreError>(StoreError::DuplicateEntry)) && (!ns.contains(
                    name@,
                ) && record_bytes(entry@).len() <= MAX_PLAINTEXT && names_bytes(
                    ns.push(name@),
                ).len() <= MAX_PLAINTEXT ==> r is Ok || r == Err::<(), StoreError>(
                    StoreError::RandomnessError,
                )) && (r is Ok ==> final(self).holds(
                    old(self).key_for(masterpw@),
                    ns.push(name@),
                    rs.push(entry@),
                )),
            r is Err ==> *final(self) == *old(self),
            r is Ok ==> final(self).head == old(self).head && !old(self).iv_used(
                final(self).metadata.iv@,
            ) && final(self).entries@.len() == old(self).entries@.len() + 1
                && final(self).entries@.subrange(0, old(self).entries@.len() as int)
                == old(self).entries@ && !old(self).iv_used(final(self).entries@.last().iv@)
                && final(self).entries@.last().iv@ != final(self).metadata.iv@,
    {
        let ghost key_v = self.key_for(masterpw@);
        let key = crypto::derive_key(masterpw.clone(), self.head.salt.as_slice());
        let names = self.read_index(&key)?;
        if let Some(i) = position(&names, &name) {
            proof {
                assert forall|ns: Seq<Seq<char>>, rs: Seq<Record>|
                    #[trigger] self.holds(key_v, ns, rs) implies ns.contains(name@) by {
                    assert(ns[i as int] == name@);
                }
            }
            return Err(StoreError::DuplicateEntry);
        }
        let entry_iv = fresh_bytes16()?;
        let index_iv = fresh_bytes16()?;
        let ghost pre = *self;
        let ghost name_v = name@;
        let ghost entry_v = entry@;
        let r = self.add_entry_with_ivs(masterpw, name, entry, entry_iv, index_iv);
        proof {
            assert forall|ns: Seq<Seq<char>>, rs: Seq<Record>|
                #[trigger] pre.holds(key_v, ns, rs) implies !ns.contains(name_v) && (record_bytes(
                    entry_v,
                ).len() <= MAX_PLAINTEXT && names_bytes(ns.push(name_v)).len() <= MAX_PLAINTEXT
                    ==> r is Ok || r == Err::<(), StoreError>(StoreError::RandomnessError)) && (r is Ok
                    ==> self.holds(key_v, ns.push(name_v), rs.push(entry_v))) by {
                assert(names_view(names@) == ns);
                assert(r == add_outcome(pre, ns, name_v, entry_v, entry_iv@, index_iv@));
            }
        }
        r
    }

    /// Removes the entry stored under `name` and its name in the index, and
    /// seals the shortened index under `index_iv`, already drawn. A name
    /// that is not stored leaves the container as it is. The result is
    /// decided by what the container stores and by the IV; on any failure
    /// the container is left as it was.
    pub fn remove_entry_with_iv(&mut self, masterpw: String, name: &str, index_iv: [u8; 16]) -> (r:
        Result<(), StoreError>)
        ensures
            forall|ns: Seq<Seq<char>>, rs: Seq<Record>|
                #[trigger] old(self).holds(old(self).key_for(masterpw@), ns, rs) ==> r
                    == remove_outcome(*old(self), ns, name@, index_iv@) && (!ns.contains(name@)
                    ==> *final(self) == *old(self)) && (ns.contains(name@) && r is Ok ==> final(self).holds(
                    old(self).key_for(masterpw@),
                    ns.remove(ns.index_of(name@)),
                    rs.remove(ns.index_of(name@)),
                ) && final(self).entries@ == old(self).entries@.remove(ns.index_of(name@)) && final(self).metadata.iv == index_iv),
            r is Err ==> *final(self) == *old(self),
            r is Ok ==> final(self).head == old(self).head,
    {
        let ghost key_v = self.key_for(masterpw@);
        let key = crypto::derive_key(masterpw, self.head.salt.as_slice());
        let mut names = self.read_index(&key)?;
        let target: String = name.to_owned();
        let i = match position(&names, &target) {
            Some(i) => i,
            None => return Ok(()),
        };
        if i >= self.entries.len() {
            return Err(StoreError::SerializationError);
        }
        proof {
            assert forall|ns: Seq<Seq<char>>, rs: Seq<Record>|
                #[trigger] self.holds(key_v, ns, rs) implies ns.contains(name@) && ns.index_of(name@)
                == i by {
                assert(ns[i as int] == name@);
                lemma_index_of_unique(ns, i as int);
            }
        }
        if self.iv_in_use(&index_iv) {
            return Err(StoreError::RandomnessError);
        }
        let ghost old_names = names@;
        names.remove(i);
        proof {
            assert(names_view(names@) =~= names_view(old_names).remove(i as int));
        }
        let content = seal_index(&names, &key, &index_iv)?;
        let ghost old_self = *self;
        self.entries.remove(i);
        self.metadata = Metadata { iv: index_iv, content };
        proof {
            assert forall|ns: Seq<Seq<char>>, rs: Seq<Record>|
                #[trigger] old_self.holds(key_v, ns, rs) implies self.holds(
                    key_v,
                    ns.remove(i as int),
                    rs.remove(i as int),
                ) by {
                assert(names_view(old_names) == ns);
                lemma_remove_no_duplicates(ns, i as int);
                let ns2 = ns.remove(i as int);
                let rs2 = rs.remove(i as int);
                assert forall|j: int| 0 <= j < ns2.len() implies (#[trigger] self.entries@[j]).content@
                    == aes256_cbc(key_v, self.entries@[j].iv@, record_bytes(rs2[j]))
                    && self.entries@[j].content@.len() <= MAX_CIPHERTEXT by {
                    if j < i {
                        assert(self.entries@[j] == old_self.entries@[j]);
                    } else {
                        assert(self.entries@[j] == old_self.entries@[j + 1]);
                    }
                }
            }
        }
        Ok(())
    }

    /// Removes the entry stored under `name` and its name in the index, and
    /// seals the shortened index under a fresh IV from the secure
    /// generator. A name that is not stored leaves the container as it is.
    /// On any failure the container is left as it was.
    pub fn remove_entry(&mut self, masterpw: String, name: &str) -> (r: Result<(), StoreError>)
        ensures
            forall|ns: Seq<Seq<char>>, rs: Seq<Record>|
                #[trigger] old(self).holds(old(self).key_for(masterpw@), ns, rs) ==> (!ns.contains(
                    name@,
                ) ==> r is Ok && *final(self) == *old(self)) && (ns.contains(name@) && r is Ok
                    ==> final(self).holds(
                    old(self).key_for(masterpw@),
                    ns.remove(ns.index_of(name@)),
                    rs.remove(ns.index_of(name@)),
                ) && final(self).entries@ == old(self).entries@.remove(ns.index_of(name@)) && !old(self).iv_used(final(self).metadata.iv@)),
            r is Err ==> *final(self) == *old(self),
            r is Ok ==> final(self).head == old(self).head,
    {
        let ghost key_v = self.key_for(masterpw@);
        let key = crypto::derive_key(masterpw.clone(), self.head.salt.as_slice());
        let names = self.read_index(&key)?;
        let target: String = name.to_owned();
        let i = match position(&names, &target) {
            Some(i) => i,
            None => {
                proof {
                    assert forall|ns: Seq<Seq<char>>, rs: Seq<Record>|
                        #[trigger] self.holds(key_v, ns, rs) implies !ns.contains(name@) by {
                        assert(names_view(names@) == ns);
                    }
                }
                return Ok(());
            },
        };
        proof {
            assert forall|ns: Seq<Seq<char>>, rs: Seq<Record>|
                #[trigger] self.holds(key_v, ns, rs) implies ns.contains(name@) by {
                assert(names_view(names@) == ns);
                assert(ns[i as int] == name@);
            }
        }
        let index_iv = fresh_bytes16()?;
        let ghost pre = *self;
        let r = self.remove_entry_with_iv(masterpw, name, index_iv);
        proof {
            assert forall|ns: Seq<Seq<char>>, rs: Seq<Record>|
                #[trigger] pre.holds(key_v, ns, rs) implies ns.contains(name@) && (r is Ok ==> self.holds(
                    key_v,
                    ns.remove(ns.index_of(name@)),
                    rs.remove(ns.index_of(name@)),
                ) && self.entries@ == pre.entries@.remove(ns.index_of(name@)) && !pre.iv_used(
                    self.metadata.iv@,
                )) by {
                assert(names_view(names@) == ns);
                assert(ns[i as int] == name@);
                lemma_index_of_unique(ns, i as int);
                assert(r == remove_outcome(pre, ns, name@, index_iv@));
            }
        }
        r
    }

    /// The entry stored under `name`, or `None` when no entry has that name.
    pub fn get_entry(&mut self, masterpw: String, name: &str) -> (r: Result<
        Option<OpenEntry>,
        StoreError,
    >)
        ensures
            *final(self) == *old(self),
            forall|ns: Seq<Seq<char>>, rs: Seq<Record>|
                #[trigger] old(self).holds(old(self).key_for(masterpw@), ns, rs) ==> (r is Ok
                    && opt_view(r->Ok_0) == lookup(ns, rs, name@)),
            r matches Err(e) ==> e == StoreError::CryptoError || e
                == StoreError::SerializationError,
    {
        let ghost key_v = self.key_for(masterpw@);
        let key = crypto::derive_key(masterpw, self.head.salt.as_slice());
        let names = self.read_index(&key)?;
        let target: String = name.to_owned();
        let i = match position(&names, &target) {
            Some(i) => i,
            None => return Ok(None),
        };
        if i >= self.entries.len() {
            return Err(StoreError::SerializationError);
        }
        proof {
            assert forall|ns: Seq<Seq<char>>, rs: Seq<Record>|
                #[trigger] self.holds(key_v, ns, rs) implies ns[i as int] == name@ && lookup(
                    ns,
                    rs,
                    name@,
                ) == Some(rs[i as int]) && self.entries@[i as int].content@ == aes256_cbc(
                    key_v,
                    self.entries@[i as int].iv@,
                    record_bytes(rs[i as int]),
                ) && self.entries@[i as int].content@.len() <= MAX_CIPHERTEXT by {
                assert(ns[i as int] == name@);
                lemma_index_of_unique(ns, i as int);
                assert(self.entries@[i as int] == self.entries@[i as int]);
            }
        }
        let entry = &self.entries[i];
        let plain = match crypto::decrypt(
            entry.content.as_slice(),
            entry.iv.as_slice(),
            key.as_slice(),
        ) {
            Ok(p) => p,
            Err(_) => return Err(StoreError::CryptoError),
        };
        let open = match record_from_bytes(plain.as_slice()) {
            Ok(e) => e,
            Err(_) => return Err(StoreError::SerializationError),
        };
        Ok(Some(open))
    }

    /// The names of all entries, in the order they were added.
    pub fn list(&mut self, masterpw: String) -> (r: Result<Vec<String>, StoreError>)
        ensures
            *final(self) == *old(self),
            forall|ns: Seq<Seq<char>>, rs: Seq<Record>|
                #[trigger] old(self).holds(old(self).key_for(masterpw@), ns, rs) ==> (r is Ok
                    && names_view(r->Ok_0@) == ns),
            r matches Err(e) ==> e == StoreError::CryptoError || e
                == StoreError::SerializationError,
    {
        let key = crypto::derive_key(masterpw, self.head.salt.as_slice());
        self.read_index(&key)
    }
}

/// The container serialized on its own, without the envelope header.
pub fn encode(file: &File) -> (r: Result<Vec<u8>, StoreError>)
    ensures
        r is Ok && r->Ok_0@ == file_bytes(file@),
{
    match file_to_bytes(file) {
        Ok(b) => Ok(b),
        Err(_) => Err(StoreError::SerializationError),
    }
}

/// Reads a container from `content`, with or without the envelope header.
pub fn decode(content: &[u8]) -> (r: Result<File, StoreError>)
    ensures
        forall|w: FileView|
            well_shaped(w) && codec::envelope_payload(content@) == #[trigger] file_bytes(w) ==> (r is Ok
                && r->Ok_0@ == w),
        r matches Err(e) ==> e == StoreError::SerializationError,
{
    let envelope = codec::parse_envelope(content);
    match file_from_bytes(envelope.payload().as_slice()) {
        Ok(f) => Ok(f),
        Err(_) => Err(StoreError::SerializationError),
    }
}

/// Every container's view has the fixed sizes of its arrays.
pub proof fn lemma_view_well_shaped(file: File)
    ensures
        well_shaped(file@),
{
    assert forall|i: int| 0 <= i < file@.4.len() implies (#[trigger] file@.4[i]).0.len() == 16 by {
        assert(file@.4[i] == file.entries@[i]@);
    }
}

/// Looking up a name right after adding it gives the record added with it.
pub proof fn lemma_get_after_add(
    names: Seq<Seq<char>>,
    records: Seq<Record>,
    name: Seq<char>,
    record: Record,
)
    requires
        names.len() == records.len(),
        names.push(name).no_duplicates(),
    ensures
        lookup(names.push(name), records.push(record), name) == Some(record),
{
    let ns = names.push(name);
    lemma_index_of_unique(ns, names.len() as int);
}

/// Removing one entry leaves every other name with the record it had.
pub proof fn lemma_remove_keeps_others(
    names: Seq<Seq<char>>,
    records: Seq<Record>,
    k: int,
    other: Seq<char>,
)
    requires
        names.len() == records.len(),
        names.no_duplicates(),
        0 <= k < names.len(),
        other != names[k],
    ensures
        lookup(names.remove(k), records.remove(k), other) == lookup(names, records, other),
{
    let ns = names.remove(k);
    let rs = records.remove(k);
    lemma_remove_no_duplicates(names, k);
    if names.contains(other) {
        let j = names.index_of(other);
        assert(names.contains(names[j]));
        assert(names[j] == other);
        let j2 = if j < k { j } else { j - 1 };
        assert(j != k);
        assert(ns[j2] == other);
        lemma_index_of_unique(ns, j2);
        assert(rs[j2] == records[j]);
    } else {
        if ns.contains(other) {
            let j2 = choose|j2: int| 0 <= j2 < ns.len() && ns[j2] == other;
            let j = if j2 < k { j2 } else { j2 + 1 };
            assert(names[j] == other);
        }
    }
}

/// A container that holds its index and entries has exactly one entry per
/// name of the index.
pub proof fn lemma_index_entry_correspondence(
    file: File,
    key: Seq<u8>,
    names: Seq<Seq<char>>,
    records: Seq<Record>,
)
    requires
        file.holds(key, names, records),
    ensures
        file.entries@.len() == names.len(),
        names.no_duplicates(),
{
}

/// Whether all the descriptive fields of a record are empty (the password
/// is not descriptive).
pub open spec fn record_is_blank(e: Record) -> bool {
    e.0.len() == 0 && e.1.len() == 0 && e.2.len() == 0 && e.3.len() == 0
}

/// A labelled line for a non-empty field, nothing for an empty one.
pub open spec fn field_line(label: Seq<char>, value: Seq<char>) -> Seq<char> {
    if value.len() == 0 {
        Seq::empty()
    } else {
        label + value + seq!['\n']
    }
}

/// How a record is shown: one labelled line per non-empty descriptive
/// field, or a dash placeholder when all of them are empty. The password
/// is never shown.
pub open spec fn record_text(e: Record) -> Seq<char> {
    if record_is_blank(e) {
        seq!['-', '-', '-']
    } else {
        field_line("Description: "@, e.0) + field_line("User name: "@, e.1) + field_line(
            "e-mail: "@,
            e.2,
        ) + field_line("Notes: "@, e.3)
    }
}

/// Appends the line of a field to `s`.
fn push_field(s: &mut String, label: &str, value: &String)
    ensures
        final(s)@ == old(s)@ + field_line(label@, value@),
{
    if !value.as_str().is_empty() {
        s.append(label);
        s.append(value.as_str());
        s.append("\n");
        proof {
            reveal_strlit("\n");
        }
    }
    assert(final(s)@ =~= old(s)@ + field_line(label@, value@));
}

impl OpenEntry {
    /// Whether the description, user, e-mail and notes are all empty.
    pub fn is_empty(&self) -> (r: bool)
        ensures
            r == record_is_blank(self@),
    {
        self.desc.as_str().is_empty() && self.user.as_str().is_empty()
            && self.email.as_str().is_empty() && self.notes.as_str().is_empty()
    }

    /// The entry as shown to its owner, without the password.
    pub fn to_text(&self) -> (r: String)
        ensures
            r@ == record_text(self@),
    {
        if self.is_empty() {
            proof {
                reveal_strlit("---");
            }
            return String::from_str("---");
        }
        let mut s = String::new();
        push_field(&mut s, "Description: ", &self.desc);
        push_field(&mut s, "User name: ", &self.user);
        push_field(&mut s, "e-mail: ", &self.email);
        push_field(&mut s, "Notes: ", &self.notes);
        assert(s@ =~= record_text(self@));
        s
    }
}

} // verus!
