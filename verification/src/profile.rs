//! The profile store: a named profile document decodes into a recursive
//! value tree that may contain encrypted leaves; a separate all-or-nothing
//! resolution pass turns every encrypted leaf into a plain string leaf using
//! the cipher.  Decoding the document text and reading files stay with the
//! caller; this module owns the tree, its resolution, the lookup order of
//! the candidate files and the applied-profile record.

use vstd::prelude::*;
use crate::encryption;
use crate::encryption::{spec_key_ok, spec_decrypt};
use crate::text::{spec_trim, trim};

verus! {

/// Reserved mapping key that marks an encrypted leaf in a profile document.
pub const ENCRYPTED_VALUE_KEY: &'static str = "$encrypted";

/// Directory under the stage root that holds the profile documents.
pub const PROFILE_DIR: &'static str = ".dotrs-profiles";

/// File in the cache directory naming the last successfully applied profile.
pub const APPLIED_PROFILE_FILE: &'static str = ".dotrs-applied-profile";

/// Why loading or resolving a profile failed.
#[derive(Debug, Clone, PartialEq, Eq)]
pub enum Error {
    /// An encrypted leaf failed to decrypt.
    Decrypt(encryption::Error),
    /// The profile document could not be decoded (the decoder's message).
    Decode(String),
    /// The named profile was required and no file exists for it.
    NoProfileWithName(String),
    /// The tree holds an encrypted leaf but no key was supplied.
    NoEncryptionKey,
}

/// An encrypted leaf: base64(nonce ++ ciphertext) under the reserved key.
#[derive(Debug, Clone, PartialEq, Eq)]
pub struct EncryptedValue {
    pub value: String,
}

impl EncryptedValue {
    /// Decrypt this leaf into a plain string leaf under the given key.
    pub fn decrypt(&self, key: &str) -> (r: Result<Value, Error>)
        requires
            spec_key_ok(key@),
        ensures
            match spec_decrypt(self.value@, key@) {
                Ok(s) => r matches Ok(Value::String(t)) && t@ == s,
                Err(e) => r == Err::<Value, Error>(Error::Decrypt(e)),
            },
    {
        match encryption::decrypt_string(self.value.as_str(), key) {
            Ok(s) => Ok(Value::String(s)),
            Err(e) => Err(Error::Decrypt(e)),
        }
    }
}

/// A decoded profile value, as read from the document: it may still contain
/// encrypted leaves.  A float is carried as its IEEE-754 bit pattern and
/// passes through resolution untouched; a mapping keeps the document's key
/// order.
pub enum DecodeValue {
    String(String),
    Int(isize),
    Float(u64),
    Bool(bool),
    List(Vec<DecodeValue>),
    Mapping(Vec<(String, DecodeValue)>),
    EncryptedValue(EncryptedValue),
    Null,
}

/// A fully resolved profile value: no encrypted leaves remain.
pub enum Value {
    String(String),
    Int(isize),
    Float(u64),
    Bool(bool),
    List(Vec<Value>),
    Mapping(Vec<(String, Value)>),
    Null,
}

/// The mathematical shape of a decoded tree.
#[verifier::ext_equal]
pub enum SpecDecodeValue {
    Str(Seq<char>),
    Int(int),
    Float(u64),
    Bool(bool),
    List(Seq<SpecDecodeValue>),
    Mapping(Seq<(Seq<char>, SpecDecodeValue)>),
    Encrypted(Seq<char>),
    Null,
}

/// The mathematical shape of a resolved tree.
#[verifier::ext_equal]
pub enum SpecValue {
    Str(Seq<char>),
    Int(int),
    Float(u64),
    Bool(bool),
    List(Seq<SpecValue>),
    Mapping(Seq<(Seq<char>, SpecValue)>),
    Null,
}

pub open spec fn decode_model(v: DecodeValue) -> SpecDecodeValue
    decreases v,
{
    match v {
        DecodeValue::String(s) => SpecDecodeValue::Str(s@),
        DecodeValue::Int(i) => SpecDecodeValue::Int(i as int),
        DecodeValue::Float(bits) => SpecDecodeValue::Float(bits),
        DecodeValue::Bool(b) => SpecDecodeValue::Bool(b),
        DecodeValue::List(items) => SpecDecodeValue::List(decode_model_seq(items@)),
        DecodeValue::Mapping(entries) => SpecDecodeValue::Mapping(decode_model_entries(entries@)),
        DecodeValue::EncryptedValue(ev) => SpecDecodeValue::Encrypted(ev.value@),
        DecodeValue::Null => SpecDecodeValue::Null,
    }
}

pub open spec fn decode_model_seq(s: Seq<DecodeValue>) -> Seq<SpecDecodeValue>
    decreases s,
{
    if s.len() == 0 {
        Seq::empty()
    } else {
        decode_model_seq(s.drop_last()).push(decode_model(s.last()))
    }
}

pub open spec fn decode_model_entries(s: Seq<(String, DecodeValue)>) -> Seq<
    (Seq<char>, SpecDecodeValue),
>
    decreases s,
{
    if s.len() == 0 {
        Seq::empty()
    } else {
        decode_model_entries(s.drop_last()).push((s.last().0@, decode_model(s.last().1)))
    }
}

pub open spec fn value_model(v: Value) -> SpecValue
    decreases v,
{
    match v {
        Value::String(s) => SpecValue::Str(s@),
        Value::Int(i) => SpecValue::Int(i as int),
        Value::Float(bits) => SpecValue::Float(bits),
        Value::Bool(b) => SpecValue::Bool(b),
        Value::List(items) => SpecValue::List(value_model_seq(items@)),
        Value::Mapping(entries) => SpecValue::Mapping(value_model_entries(entries@)),
        Value::Null => SpecValue::Null,
    }
}

pub open spec fn value_model_seq(s: Seq<Value>) -> Seq<SpecValue>
    decreases s,
{
    if s.len() == 0 {
        Seq::empty()
    } else {
        value_model_seq(s.drop_last()).push(value_model(s.last()))
    }
}

pub open spec fn value_model_entries(s: Seq<(String, Value)>) -> Seq<(Seq<char>, SpecValue)>
    decreases s,
{
    if s.len() == 0 {
        Seq::empty()
    } else {
        value_model_entries(s.drop_last()).push((s.last().0@, value_model(s.last().1)))
    }
}

pub proof fn lemma_decode_model_seq(s: Seq<DecodeValue>)
    ensures
        decode_model_seq(s).len() == s.len(),
        forall|i: int| 0 <= i < s.len() ==> decode_model_seq(s)[i] == decode_model(s[i]),
    decreases s.len(),
{
    if s.len() > 0 {
        lemma_decode_model_seq(s.drop_last());
    }
}

pub proof fn lemma_decode_model_entries(s: Seq<(String, DecodeValue)>)
    ensures
        decode_model_entries(s).len() == s.len(),
        forall|i: int| 0 <= i < s.len() ==> decode_model_entries(s)[i] == (
            s[i].0@,
            decode_model(s[i].1),
        ),
    decreases s.len(),
{
    if s.len() > 0 {
        lemma_decode_model_entries(s.drop_last());
    }
}

pub proof fn lemma_value_model_seq(s: Seq<Value>)
    ensures
        value_model_seq(s).len() == s.len(),
        forall|i: int| 0 <= i < s.len() ==> value_model_seq(s)[i] == value_model(s[i]),
    decreases s.len(),
{
    if s.len() > 0 {
        lemma_value_model_seq(s.drop_last());
    }
}

pub proof fn lemma_value_model_entries(s: Seq<(String, Value)>)
    ensures
        value_model_entries(s).len() == s.len(),
        forall|i: int| 0 <= i < s.len() ==> value_model_entries(s)[i] == (
            s[i].0@,
            value_model(s[i].1),
        ),
    decreases s.len(),
{
    if s.len() > 0 {
        lemma_value_model_entries(s.drop_last());
    }
}

/// Whether the tree holds at least one encrypted leaf.
pub open spec fn spec_contains_encrypted(v: SpecDecodeValue) -> bool
    decreases v,
{
    match v {
        SpecDecodeValue::List(items) => spec_any_encrypted(items),
        SpecDecodeValue::Mapping(entries) => spec_any_entry_encrypted(entries),
        SpecDecodeValue::Encrypted(_) => true,
        _ => false,
    }
}

/// Whether any element of the list holds an encrypted leaf.
pub open spec fn spec_any_encrypted(items: Seq<SpecDecodeValue>) -> bool
    decreases items,
{
    items.len() > 0 && (spec_any_encrypted(items.drop_last()) || spec_contains_encrypted(
        items.last(),
    ))
}

/// Whether any value of the mapping holds an encrypted leaf.
pub open spec fn spec_any_entry_encrypted(entries: Seq<(Seq<char>, SpecDecodeValue)>) -> bool
    decreases entries,
{
    entries.len() > 0 && (spec_any_entry_encrypted(entries.drop_last()) || spec_contains_encrypted(
        entries.last().1,
    ))
}

proof fn lemma_any_encrypted_step(items: Seq<SpecDecodeValue>, i: int)
    requires
        0 <= i < items.len(),
    ensures
        spec_any_encrypted(items.take(i + 1)) == (spec_any_encrypted(items.take(i))
            || spec_contains_encrypted(items[i])),
{
    assert(items.take(i + 1).drop_last() =~= items.take(i));
    assert(items.take(i + 1).last() == items[i]);
}

proof fn lemma_any_entry_encrypted_step(entries: Seq<(Seq<char>, SpecDecodeValue)>, i: int)
    requires
        0 <= i < entries.len(),
    ensures
        spec_any_entry_encrypted(entries.take(i + 1)) == (spec_any_entry_encrypted(
            entries.take(i),
        ) || spec_contains_encrypted(entries[i].1)),
{
    assert(entries.take(i + 1).drop_last() =~= entries.take(i));
    assert(entries.take(i + 1).last() == entries[i]);
}

proof fn lemma_any_encrypted_monotone(items: Seq<SpecDecodeValue>, i: int)
    requires
        0 <= i <= items.len(),
        spec_any_encrypted(items.take(i)),
    ensures
        spec_any_encrypted(items),
    decreases items.len() - i,
{
    if i < items.len() {
        lemma_any_encrypted_step(items, i);
        lemma_any_encrypted_monotone(items, i + 1);
    } else {
        assert(items.take(i) =~= items);
    }
}

proof fn lemma_any_entry_encrypted_monotone(entries: Seq<(Seq<char>, SpecDecodeValue)>, i: int)
    requires
        0 <= i <= entries.len(),
        spec_any_entry_encrypted(entries.take(i)),
    ensures
        spec_any_entry_encrypted(entries),
    decreases entries.len() - i,
{
    if i < entries.len() {
        lemma_any_entry_encrypted_step(entries, i);
        lemma_any_entry_encrypted_monotone(entries, i + 1);
    } else {
        assert(entries.take(i) =~= entries);
    }
}

impl DecodeValue {
    /// Whether any leaf of the tree is encrypted: resolution needs a key
    /// exactly when this holds.
    #[verifier::loop_isolation(false)]
    pub fn contains_encrypted_value(&self) -> (r: bool)
        ensures
            r == spec_contains_encrypted(decode_model(*self)),
        decreases *self,
    {
        match self {
            DecodeValue::List(items) => {
                let n = items.len();
                let mut i: usize = 0;
                proof {
                    lemma_decode_model_seq(items@);
                }
                while i < n
                    invariant
                        0 <= i <= n,
                        !spec_any_encrypted(decode_model_seq(items@).take(i as int)),
                    decreases n - i,
                {
                    proof {
                        assert(decreases_to!(*self => *items));
                        assert(decreases_to!(*items => items@[i as int]));
                    }
                    let found = items[i].contains_encrypted_value();
                    proof {
                        lemma_any_encrypted_step(decode_model_seq(items@), i as int);
                    }
                    if found {
                        proof {
                            lemma_any_encrypted_monotone(decode_model_seq(items@), i + 1);
                        }
                        return true;
                    }
                    i = i + 1;
                }
                proof {
                    assert(decode_model_seq(items@).take(n as int) =~= decode_model_seq(items@));
                }
                false
            },
            DecodeValue::Mapping(entries) => {
                let n = entries.len();
                let mut i: usize = 0;
                proof {
                    lemma_decode_model_entries(entries@);
                }
                while i < n
                    invariant
                        0 <= i <= n,
                        !spec_any_entry_encrypted(decode_model_entries(entries@).take(i as int)),
                    decreases n - i,
                {
                    proof {
                        assert(decreases_to!(*self => *entries));
                        assert(decreases_to!(*entries => entries@[i as int].1));
                    }
                    let found = entries[i].1.contains_encrypted_value();
                    proof {
                        lemma_any_entry_encrypted_step(decode_model_entries(entries@), i as int);
                    }
                    if found {
                        proof {
                            lemma_any_entry_encrypted_monotone(
                                decode_model_entries(entries@),
                                i + 1,
                            );
                        }
                        return true;
                    }
                    i = i + 1;
                }
                proof {
                    assert(decode_model_entries(entries@).take(n as int) =~= decode_model_entries(
                        entries@,
                    ));
                }
                false
            },
            DecodeValue::EncryptedValue(_) => true,
            _ => false,
        }
    }
}


/// The key as the cipher sees it.
pub open spec fn spec_opt_key(key: Option<&str>) -> Option<Seq<char>> {
    match key {
        Some(k) => Some(k@),
        None => None,
    }
}

/// What resolving the tree under the given key yields: scalars pass through,
/// lists and mappings recurse elementwise in order, every encrypted leaf
/// needs the key and must decrypt to a string leaf — all or nothing.
pub open spec fn spec_resolve(v: SpecDecodeValue, key: Option<Seq<char>>) -> Result<
    SpecValue,
    Error,
>
    decreases v,
{
    match v {
        SpecDecodeValue::Str(s) => Ok(SpecValue::Str(s)),
        SpecDecodeValue::Int(i) => Ok(SpecValue::Int(i)),
        SpecDecodeValue::Float(bits) => Ok(SpecValue::Float(bits)),
        SpecDecodeValue::Bool(b) => Ok(SpecValue::Bool(b)),
        SpecDecodeValue::Null => Ok(SpecValue::Null),
        SpecDecodeValue::List(items) => match spec_resolve_list(items, key) {
            Ok(l) => Ok(SpecValue::List(l)),
            Err(e) => Err(e),
        },
        SpecDecodeValue::Mapping(entries) => match spec_resolve_entries(entries, key) {
            Ok(m) => Ok(SpecValue::Mapping(m)),
            Err(e) => Err(e),
        },
        SpecDecodeValue::Encrypted(blob) => match key {
            None => Err(Error::NoEncryptionKey),
            Some(k) => match spec_decrypt(blob, k) {
                Ok(s) => Ok(SpecValue::Str(s)),
                Err(e) => Err(Error::Decrypt(e)),
            },
        },
    }
}

/// Elementwise resolution of a list; the first error in order wins.
pub open spec fn spec_resolve_list(items: Seq<SpecDecodeValue>, key: Option<Seq<char>>) -> Result<
    Seq<SpecValue>,
    Error,
>
    decreases items,
{
    if items.len() == 0 {
        Ok(Seq::empty())
    } else {
        match spec_resolve_list(items.drop_last(), key) {
            Err(e) => Err(e),
            Ok(t) => match spec_resolve(items.last(), key) {
                Err(e) => Err(e),
                Ok(h) => Ok(t.push(h)),
            },
        }
    }
}

/// Elementwise resolution of a mapping's values, keys kept in order.
pub open spec fn spec_resolve_entries(
    entries: Seq<(Seq<char>, SpecDecodeValue)>,
    key: Option<Seq<char>>,
) -> Result<Seq<(Seq<char>, SpecValue)>, Error>
    decreases entries,
{
    if entries.len() == 0 {
        Ok(Seq::empty())
    } else {
        match spec_resolve_entries(entries.drop_last(), key) {
            Err(e) => Err(e),
            Ok(t) => match spec_resolve(entries.last().1, key) {
                Err(e) => Err(e),
                Ok(h) => Ok(t.push((entries.last().0, h))),
            },
        }
    }
}

proof fn lemma_resolve_list_step(items: Seq<SpecDecodeValue>, key: Option<Seq<char>>, i: int)
    requires
        0 <= i < items.len(),
    ensures
        spec_resolve_list(items.take(i + 1), key) == match spec_resolve_list(items.take(i), key) {
            Err(e) => Err::<Seq<SpecValue>, Error>(e),
            Ok(t) => match spec_resolve(items[i], key) {
                Err(e) => Err::<Seq<SpecValue>, Error>(e),
                Ok(h) => Ok::<Seq<SpecValue>, Error>(t.push(h)),
            },
        },
{
    assert(items.take(i + 1).drop_last() =~= items.take(i));
    assert(items.take(i + 1).last() == items[i]);
}

proof fn lemma_resolve_entries_step(
    entries: Seq<(Seq<char>, SpecDecodeValue)>,
    key: Option<Seq<char>>,
    i: int,
)
    requires
        0 <= i < entries.len(),
    ensures
        spec_resolve_entries(entries.take(i + 1), key) == match spec_resolve_entries(
            entries.take(i),
            key,
        ) {
            Err(e) => Err::<Seq<(Seq<char>, SpecValue)>, Error>(e),
            Ok(t) => match spec_resolve(entries[i].1, key) {
                Err(e) => Err::<Seq<(Seq<char>, SpecValue)>, Error>(e),
                Ok(h) => Ok::<Seq<(Seq<char>, SpecValue)>, Error>(t.push((entries[i].0, h))),
            },
        },
{
    assert(entries.take(i + 1).drop_last() =~= entries.take(i));
    assert(entries.take(i + 1).last() == entries[i]);
}

proof fn lemma_resolve_list_err(items: Seq<SpecDecodeValue>, key: Option<Seq<char>>, i: int)
    requires
        0 <= i <= items.len(),
        spec_resolve_list(items.take(i), key) is Err,
    ensures
        spec_resolve_list(items, key) == spec_resolve_list(items.take(i), key),
    decreases items.len() - i,
{
    if i < items.len() {
        lemma_resolve_list_step(items, key, i);
        lemma_resolve_list_err(items, key, i + 1);
    } else {
        assert(items.take(i) =~= items);
    }
}

proof fn lemma_resolve_entries_err(
    entries: Seq<(Seq<char>, SpecDecodeValue)>,
    key: Option<Seq<char>>,
    i: int,
)
    requires
        0 <= i <= entries.len(),
        spec_resolve_entries(entries.take(i), key) is Err,
    ensures
        spec_resolve_entries(entries, key) == spec_resolve_entries(entries.take(i), key),
    decreases entries.len() - i,
{
    if i < entries.len() {
        lemma_resolve_entries_step(entries, key, i);
        lemma_resolve_entries_err(entries, key, i + 1);
    } else {
        assert(entries.take(i) =~= entries);
    }
}

impl DecodeValue {
    /// Resolve the tree: every encrypted leaf becomes a plain string leaf,
    /// everything else is rebuilt unchanged.  Fails without touching the
    /// result when the key is missing, a leaf fails to decrypt, or a
    /// decrypted leaf is not valid UTF-8.
    #[verifier::loop_isolation(false)]
    pub fn decrypt(&self, key: Option<&str>) -> (r: Result<Value, Error>)
        requires
            spec_contains_encrypted(decode_model(*self)) ==> (key matches Some(k)
                ==> spec_key_ok(k@)),
        ensures
            match spec_resolve(decode_model(*self), spec_opt_key(key)) {
                Ok(m) => r matches Ok(v) && value_model(v) == m,
                Err(e) => r matches Err(e2) && e2 == e,
            },
        decreases *self,
    {
        match self {
            DecodeValue::String(s) => Ok(Value::String(s.clone())),
            DecodeValue::Int(i) => Ok(Value::Int(*i)),
            DecodeValue::Float(bits) => Ok(Value::Float(*bits)),
            DecodeValue::Bool(b) => Ok(Value::Bool(*b)),
            DecodeValue::Null => Ok(Value::Null),
            DecodeValue::EncryptedValue(ev) => match key {
                None => Err(Error::NoEncryptionKey),
                Some(k) => ev.decrypt(k),
            },
            DecodeValue::List(items) => {
                let ghost dm = decode_model_seq(items@);
                let ghost mkey = spec_opt_key(key);
                proof {
                    lemma_decode_model_seq(items@);
                }
                let n = items.len();
                let mut out: Vec<Value> = Vec::new();
                let mut i: usize = 0;
                while i < n
                    invariant
                        0 <= i <= n,
                        out@.len() == i,
                        spec_resolve_list(dm.take(i as int), mkey) == Ok::<Seq<SpecValue>, Error>(
                            value_model_seq(out@),
                        ),
                    decreases n - i,
                {
                    proof {
                        assert(decreases_to!(*self => *items));
                        assert(decreases_to!(*items => items@[i as int]));
                        if spec_contains_encrypted(dm[i as int]) {
                            lemma_any_encrypted_step(dm, i as int);
                            lemma_any_encrypted_monotone(dm, i + 1);
                        }
                    }
                    let rv = items[i].decrypt(key);
                    proof {
                        lemma_resolve_list_step(dm, mkey, i as int);
                    }
                    match rv {
                        Err(e) => {
                            proof {
                                lemma_resolve_list_err(dm, mkey, i + 1);
                            }
                            return Err(e);
                        },
                        Ok(v) => {
                            let ghost out_before = out@;
                            out.push(v);
                            proof {
                                assert(out@.drop_last() =~= out_before);
                                assert(value_model_seq(out@) =~= value_model_seq(
                                    out_before,
                                ).push(value_model(v)));
                            }
                        },
                    }
                    i = i + 1;
                }
                proof {
                    assert(dm.take(n as int) =~= dm);
                }
                Ok(Value::List(out))
            },
            DecodeValue::Mapping(entries) => {
                let ghost dm = decode_model_entries(entries@);
                let ghost mkey = spec_opt_key(key);
                proof {
                    lemma_decode_model_entries(entries@);
                }
                let n = entries.len();
                let mut out: Vec<(String, Value)> = Vec::new();
                let mut i: usize = 0;
                while i < n
                    invariant
                        0 <= i <= n,
                        out@.len() == i,
                        spec_resolve_entries(dm.take(i as int), mkey) == Ok::<
                            Seq<(Seq<char>, SpecValue)>,
                            Error,
                        >(value_model_entries(out@)),
                    decreases n - i,
                {
                    proof {
                        assert(decreases_to!(*self => *entries));
                        assert(decreases_to!(*entries => entries@[i as int].1));
                        if spec_contains_encrypted(dm[i as int].1) {
                            lemma_any_entry_encrypted_step(dm, i as int);
                            lemma_any_entry_encrypted_monotone(dm, i + 1);
                        }
                    }
                    let rv = entries[i].1.decrypt(key);
                    proof {
                        lemma_resolve_entries_step(dm, mkey, i as int);
                    }
                    match rv {
                        Err(e) => {
                            proof {
                                lemma_resolve_entries_err(dm, mkey, i + 1);
                            }
                            return Err(e);
                        },
                        Ok(v) => {
                            let ghost out_before = out@;
                            out.push((entries[i].0.clone(), v));
                            proof {
                                assert(out@.drop_last() =~= out_before);
                                assert(value_model_entries(out@) =~= value_model_entries(
                                    out_before,
                                ).push((entries@[i as int].0@, value_model(v))));
                            }
                        },
                    }
                    i = i + 1;
                }
                proof {
                    assert(dm.take(n as int) =~= dm);
                }
                Ok(Value::Mapping(out))
            },
        }
    }
}


proof fn lemma_resolve_list_no_encrypted(items: Seq<SpecDecodeValue>, key: Option<Seq<char>>)
    requires
        !spec_any_encrypted(items),
    ensures
        spec_resolve_list(items, key) is Ok,
    decreases items,
{
    if items.len() > 0 {
        lemma_resolve_list_no_encrypted(items.drop_last(), key);
        lemma_resolve_no_encrypted(items.last(), key);
    }
}

proof fn lemma_resolve_entries_no_encrypted(
    entries: Seq<(Seq<char>, SpecDecodeValue)>,
    key: Option<Seq<char>>,
)
    requires
        !spec_any_entry_encrypted(entries),
    ensures
        spec_resolve_entries(entries, key) is Ok,
    decreases entries,
{
    if entries.len() > 0 {
        lemma_resolve_entries_no_encrypted(entries.drop_last(), key);
        lemma_resolve_no_encrypted(entries.last().1, key);
    }
}

/// Law: a tree without encrypted leaves resolves successfully, whether or
/// not a key is present.
pub proof fn lemma_resolve_no_encrypted(v: SpecDecodeValue, key: Option<Seq<char>>)
    requires
        !spec_contains_encrypted(v),
    ensures
        spec_resolve(v, key) is Ok,
    decreases v,
{
    match v {
        SpecDecodeValue::List(items) => {
            lemma_resolve_list_no_encrypted(items, key);
        },
        SpecDecodeValue::Mapping(entries) => {
            lemma_resolve_entries_no_encrypted(entries, key);
        },
        _ => {},
    }
}

proof fn lemma_resolve_list_needs_key(items: Seq<SpecDecodeValue>)
    requires
        spec_any_encrypted(items),
    ensures
        spec_resolve_list(items, None) == Err::<Seq<SpecValue>, Error>(Error::NoEncryptionKey),
    decreases items,
{
    if spec_any_encrypted(items.drop_last()) {
        lemma_resolve_list_needs_key(items.drop_last());
    } else {
        lemma_resolve_list_no_encrypted(items.drop_last(), None);
        lemma_resolve_needs_key(items.last());
    }
}

proof fn lemma_resolve_entries_needs_key(entries: Seq<(Seq<char>, SpecDecodeValue)>)
    requires
        spec_any_entry_encrypted(entries),
    ensures
        spec_resolve_entries(entries, None) == Err::<Seq<(Seq<char>, SpecValue)>, Error>(
            Error::NoEncryptionKey,
        ),
    decreases entries,
{
    if spec_any_entry_encrypted(entries.drop_last()) {
        lemma_resolve_entries_needs_key(entries.drop_last());
    } else {
        lemma_resolve_entries_no_encrypted(entries.drop_last(), None);
        lemma_resolve_needs_key(entries.last().1);
    }
}

/// Law: a tree with at least one encrypted leaf and no key never resolves,
/// and fails with `NoEncryptionKey`; nothing is partially substituted, since
/// resolution returns no tree at all in that case.
pub proof fn lemma_resolve_needs_key(v: SpecDecodeValue)
    requires
        spec_contains_encrypted(v),
    ensures
        spec_resolve(v, None) == Err::<SpecValue, Error>(Error::NoEncryptionKey),
    decreases v,
{
    match v {
        SpecDecodeValue::List(items) => {
            lemma_resolve_list_needs_key(items);
        },
        SpecDecodeValue::Mapping(entries) => {
            lemma_resolve_entries_needs_key(entries);
        },
        _ => {},
    }
}

/// Which source a profile lookup settles on.
#[derive(Clone, Copy, Debug, PartialEq, Eq, Structural)]
pub enum ProfileSource {
    /// Parse `<name>.yaml`.
    Yaml,
    /// Parse `<name>.yml`.
    Yml,
    /// No file: the profile is the null tree.
    Absent,
}

/// The fixed lookup order: `.yaml` first, then `.yml`; with neither present
/// the lookup succeeds as absent only when the profile need not exist.
pub open spec fn spec_load(
    must_exist: bool,
    yaml_found: bool,
    yml_found: bool,
) -> Option<ProfileSource> {
    if yaml_found {
        Some(ProfileSource::Yaml)
    } else if yml_found {
        Some(ProfileSource::Yml)
    } else if !must_exist {
        Some(ProfileSource::Absent)
    } else {
        None
    }
}

/// Law: lookup prefers `.yaml` over `.yml`; with no file present, the
/// reserved name "default" (for which the caller sets `must_exist` false)
/// yields the absent source — null, not an error — while any other name
/// fails the lookup.
pub proof fn lemma_profile_lookup(name: Seq<char>, yaml_found: bool, yml_found: bool)
    ensures
        yaml_found ==> spec_load(name != "default"@, yaml_found, yml_found) == Some(
            ProfileSource::Yaml,
        ),
        !yaml_found && yml_found ==> spec_load(name != "default"@, yaml_found, yml_found) == Some(
            ProfileSource::Yml,
        ),
        !yaml_found && !yml_found && name == "default"@ ==> spec_load(
            name != "default"@,
            yaml_found,
            yml_found,
        ) == Some(ProfileSource::Absent),
        !yaml_found && !yml_found && name != "default"@ ==> spec_load(
            name != "default"@,
            yaml_found,
            yml_found,
        ) is None,
{
}

/// A named profile lookup rooted at the stage directory.
pub struct Profile {
    pub base_path: String,
    pub must_exist: bool,
}

impl Profile {
    pub fn new(base_path: String, must_exist: bool) -> (r: Self)
        ensures
            r.base_path@ == base_path@,
            r.must_exist == must_exist,
    {
        Profile { base_path, must_exist }
    }

    /// The two candidate document paths for `name`, in lookup order:
    /// `<base>/.dotrs-profiles/<name>.yaml` then `…/<name>.yml`.
    pub fn candidate_paths(&self, name: &str) -> (r: (String, String))
        ensures
            r.0@ == self.base_path@ + "/.dotrs-profiles/"@ + name@ + ".yaml"@,
            r.1@ == self.base_path@ + "/.dotrs-profiles/"@ + name@ + ".yml"@,
    {
        let mut yaml = self.base_path.clone();
        yaml.append("/.dotrs-profiles/");
        yaml.append(name);
        let mut yml = yaml.clone();
        yaml.append(".yaml");
        yml.append(".yml");
        (yaml, yml)
    }

    /// Settle which candidate file the caller must parse, from whether each
    /// exists: `.yaml` is preferred, `.yml` is the fallback, and with
    /// neither present the profile is absent — an error exactly when this
    /// lookup requires the profile to exist.
    pub fn load(&self, name: &str, yaml_found: bool, yml_found: bool) -> (r: Result<
        ProfileSource,
        Error,
    >)
        ensures
            match spec_load(self.must_exist, yaml_found, yml_found) {
                Some(src) => r == Ok::<ProfileSource, Error>(src),
                None => r matches Err(e) && e matches Error::NoProfileWithName(n) && n@ == name@,
            },
    {
        if yaml_found {
            Ok(ProfileSource::Yaml)
        } else if yml_found {
            Ok(ProfileSource::Yml)
        } else if !self.must_exist {
            Ok(ProfileSource::Absent)
        } else {
            Err(Error::NoProfileWithName(name.to_owned()))
        }
    }
}

/// The applied-profile record: `None` when the record file is absent,
/// otherwise the file's text trimmed to the bare profile name.
pub fn get_applied_profile(content: Option<&str>) -> (r: Option<String>)
    ensures
        match content {
            None => r is None,
            Some(s) => r matches Some(p) && p@ == spec_trim(s@),
        },
{
    match content {
        None => None,
        Some(s) => Some(trim(s).to_owned()),
    }
}


impl DecodeValue {
    /// `decrypt` behind a key check: `None` exactly when the tree holds an
    /// encrypted leaf and the supplied key is base64 text that decodes to
    /// something other than the 32 bytes an AES-256 cipher needs.
    pub fn try_decrypt(&self, key: Option<&str>) -> (r: Option<Result<Value, Error>>)
        ensures
            r is None <==> (spec_contains_encrypted(decode_model(*self)) && (key matches Some(k)
                && !spec_key_ok(k@))),
            r matches Some(inner) ==> match spec_resolve(decode_model(*self), spec_opt_key(key)) {
                Ok(m) => inner matches Ok(v) && value_model(v) == m,
                Err(e) => inner matches Err(e2) && e2 == e,
            },
    {
        if self.contains_encrypted_value() {
            if let Some(k) = key {
                if !encryption::key_ok(k) {
                    return None;
                }
            }
        }
        Some(self.decrypt(key))
    }
}

} // verus!
