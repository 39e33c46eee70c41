use vstd::prelude::*;
use vstd::utf8::*;
use vstd::slice::slice_subrange;
use vstd::slice::slice_to_vec;

use crate::crypto::{
    constant_time_eq, hmac_sha256, hmac_sha256_tag, lemma_xor_stream_involution, pbkdf2_hmac_sha256,
    pbkdf2_sha256, xor_stream, xor_stream_spec,
};

use crate::text::{trim, trim_str};

verus! {

/// One stored password record.
#[derive(Debug, Clone, PartialEq, Eq)]
pub struct PasswordEntry {
    pub category: String,
    pub title: String,
    pub username: String,
    pub password: String,
    pub notes: String,
}

/// The text of a record, field by field.
pub struct EntryView {
    pub category: Seq<char>,
    pub title: Seq<char>,
    pub username: Seq<char>,
    pub password: Seq<char>,
    pub notes: Seq<char>,
}

impl View for PasswordEntry {
    type V = EntryView;

    open spec fn view(&self) -> EntryView {
        EntryView {
            category: self.category@,
            title: self.title@,
            username: self.username@,
            password: self.password@,
            notes: self.notes@,
        }
    }
}

/// The views of a sequence of records.
pub open spec fn views(entries: Seq<PasswordEntry>) -> Seq<EntryView> {
    entries.map_values(|e: PasswordEntry| e@)
}

/// A record whose five fields are empty.
pub open spec fn empty_entry() -> EntryView {
    EntryView {
        category: Seq::empty(),
        title: Seq::empty(),
        username: Seq::empty(),
        password: Seq::empty(),
        notes: Seq::empty(),
    }
}

/// The record with surrounding whitespace removed from every field but the password.
pub open spec fn trimmed_entry(e: EntryView) -> EntryView {
    EntryView {
        category: trim(e.category),
        title: trim(e.title),
        username: trim(e.username),
        password: e.password,
        notes: trim(e.notes),
    }
}

impl Default for PasswordEntry {
    fn default() -> (r: Self)
        ensures
            r@ == empty_entry(),
    {
        PasswordEntry {
            category: String::new(),
            title: String::new(),
            username: String::new(),
            password: String::new(),
            notes: String::new(),
        }
    }
}

impl PasswordEntry {
    /// A field-for-field copy.
    pub fn duplicate(&self) -> (r: Self)
        ensures
            r == *self,
    {
        PasswordEntry {
            category: self.category.clone(),
            title: self.title.clone(),
            username: self.username.clone(),
            password: self.password.clone(),
            notes: self.notes.clone(),
        }
    }

    /// The record with surrounding whitespace removed from category, title, username
    /// and notes; the password is kept exactly as typed.
    pub fn trimmed(&self) -> (r: Self)
        ensures
            r@ == trimmed_entry(self@),
    {
        PasswordEntry {
            category: trim_str(self.category.as_str()),
            title: trim_str(self.title.as_str()),
            username: trim_str(self.username.as_str()),
            password: self.password.clone(),
            notes: trim_str(self.notes.as_str()),
        }
    }
}

/// Why a vault could not be opened.
#[derive(Debug, Clone, Copy, PartialEq, Eq)]
pub enum VaultError {
    /// Too short to hold the header, or the file does not start with the magic bytes.
    BadFormat,
    /// The authentication tag does not match: wrong master password or damaged file.
    WrongKeyOrCorrupted,
    /// The decrypted record data ends in the middle of a value.
    Truncated,
    /// A decrypted text value is not valid UTF-8.
    InvalidUtf8,
}

/// The four little-endian bytes of `v`.
pub open spec fn u32_le(v: u32) -> Seq<u8> {
    seq![(v & 0xff) as u8, ((v >> 8) & 0xff) as u8, ((v >> 16) & 0xff) as u8, ((v >> 24) & 0xff) as u8]
}

/// The number whose little-endian bytes are `b[0..4]`.
pub open spec fn u32_from_le(b: Seq<u8>) -> u32 {
    (b[0] as u32) | ((b[1] as u32) << 8) | ((b[2] as u32) << 16) | ((b[3] as u32) << 24)
}

proof fn lemma_u32_le_round_trip(v: u32)
    ensures
        u32_from_le(u32_le(v)) == v,
{
    let b = u32_le(v);
    let b0 = b[0];
    let b1 = b[1];
    let b2 = b[2];
    let b3 = b[3];
    assert(b0 == (v & 0xff) as u8 && b1 == ((v >> 8) & 0xff) as u8 && b2 == ((v >> 16) & 0xff) as u8
        && b3 == ((v >> 24) & 0xff) as u8);
    assert((b0 == (v & 0xff) as u8 && b1 == ((v >> 8) & 0xff) as u8 && b2 == ((v >> 16) & 0xff) as u8
        && b3 == ((v >> 24) & 0xff) as u8) ==> ((b0 as u32) | ((b1 as u32) << 8) | ((b2 as u32) << 16)
        | ((b3 as u32) << 24)) == v) by (bit_vector);
}

fn push_u32_le(out: &mut Vec<u8>, v: u32)
    ensures
        final(out)@ == old(out)@ + u32_le(v),
{
    out.push((v & 0xff) as u8);
    out.push(((v >> 8) & 0xff) as u8);
    out.push(((v >> 16) & 0xff) as u8);
    out.push(((v >> 24) & 0xff) as u8);
    assert(out@ =~= old(out)@ + u32_le(v));
}

/// A string stored as its UTF-8 byte count (as a 32-bit little-endian number) and bytes.
pub open spec fn string_record(s: Seq<char>) -> Seq<u8> {
    u32_le(encode_utf8(s).len() as u32) + encode_utf8(s)
}

/// A record stored as its five strings in field order.
pub open spec fn entry_record(e: EntryView) -> Seq<u8> {
    string_record(e.category) + string_record(e.title) + string_record(e.username)
        + string_record(e.password) + string_record(e.notes)
}

/// The records one after another.
pub open spec fn entries_body(es: Seq<EntryView>) -> Seq<u8>
    decreases es.len(),
{
    if es.len() == 0 {
        Seq::empty()
    } else {
        entries_body(es.drop_last()) + entry_record(es.last())
    }
}

/// The plaintext of a vault: the record count, then the records.
pub open spec fn encoded_entries(es: Seq<EntryView>) -> Seq<u8> {
    u32_le(es.len() as u32) + entries_body(es)
}

/// Appends a string record to `bytes`.
pub fn write_string(bytes: &mut Vec<u8>, value: &str)
    ensures
        final(bytes)@ == old(bytes)@ + string_record(value@),
{
    let raw = value.as_bytes();
    push_u32_le(bytes, raw.len() as u32);
    bytes.extend_from_slice(raw);
    assert(bytes@ =~= old(bytes)@ + string_record(value@));
}

/// Appends one record to `bytes`.
fn write_entry(bytes: &mut Vec<u8>, entry: &PasswordEntry)
    ensures
        final(bytes)@ == old(bytes)@ + entry_record(entry@),
{
    let ghost start = bytes@;
    write_string(bytes, entry.category.as_str());
    write_string(bytes, entry.title.as_str());
    write_string(bytes, entry.username.as_str());
    write_string(bytes, entry.password.as_str());
    write_string(bytes, entry.notes.as_str());
    assert(bytes@ =~= start + entry_record(entry@));
}

/// Serialises the records into the vault's plaintext layout.
pub fn encode_entries(entries: &[PasswordEntry]) -> (r: Vec<u8>)
    ensures
        r@ == encoded_entries(views(entries@)),
{
    let mut bytes: Vec<u8> = Vec::new();
    push_u32_le(&mut bytes, entries.len() as u32);
    let ghost head = u32_le(entries.len() as u32);
    let mut i: usize = 0;
    while i < entries.len()
        invariant
            i <= entries.len(),
            head == u32_le(entries@.len() as u32),
            bytes@ == head + entries_body(views(entries@.take(i as int))),
        decreases entries.len() - i,
    {
        let entry = &entries[i];
        let ghost prev = bytes@;
        write_entry(&mut bytes, entry);
        proof {
            let before = views(entries@.take(i as int));
            let after = views(entries@.take(i + 1));
            assert(after.drop_last() =~= before);
            assert(after.last() == entry@);
            assert(entries_body(after) == entries_body(before) + entry_record(entry@));
            assert(bytes@ =~= head + entries_body(after));
        }
        i = i + 1;
    }
    assert(entries@.take(entries@.len() as int) =~= entries@);
    bytes
}

/// How many bytes are left after position `c` (none when `c` is past the end).
pub open spec fn remaining(len: int, c: int) -> int {
    if c <= len {
        len - c
    } else {
        0
    }
}

/// Reading a 32-bit little-endian number at `c`.
pub open spec fn read_u32_spec(b: Seq<u8>, c: int) -> Option<u32> {
    if remaining(b.len() as int, c) < 4 {
        None
    } else {
        Some(u32_from_le(b.subrange(c, c + 4)))
    }
}

/// Reading a string record at `c`: its text and the position after it.
pub open spec fn read_string_spec(b: Seq<u8>, c: int) -> Result<(Seq<char>, int), VaultError> {
    match read_u32_spec(b, c) {
        None => Err(VaultError::Truncated),
        Some(n) => {
            let start = c + 4;
            if remaining(b.len() as int, start) < n {
                Err(VaultError::Truncated)
            } else if valid_utf8(b.subrange(start, start + n)) {
                Ok((decode_utf8(b.subrange(start, start + n)), start + n))
            } else {
                Err(VaultError::InvalidUtf8)
            }
        },
    }
}

/// Reading one record at `c`: its five fields in order, stopping at the first failure.
pub open spec fn read_entry_spec(b: Seq<u8>, c: int) -> Result<(EntryView, int), VaultError> {
    match read_string_spec(b, c) {
        Err(e) => Err(e),
        Ok((category, c1)) => match read_string_spec(b, c1) {
            Err(e) => Err(e),
            Ok((title, c2)) => match read_string_spec(b, c2) {
                Err(e) => Err(e),
                Ok((username, c3)) => match read_string_spec(b, c3) {
                    Err(e) => Err(e),
                    Ok((password, c4)) => match read_string_spec(b, c4) {
                        Err(e) => Err(e),
                        Ok((notes, c5)) => Ok(
                            (EntryView { category, title, username, password, notes }, c5),
                        ),
                    },
                },
            },
        },
    }
}

/// Reading `n` records one after another from `c`.
pub open spec fn read_entries_spec(b: Seq<u8>, c: int, n: nat) -> Result<(Seq<EntryView>, int), VaultError>
    decreases n,
{
    if n == 0 {
        Ok((Seq::empty(), c))
    } else {
        match read_entries_spec(b, c, (n - 1) as nat) {
            Err(e) => Err(e),
            Ok((es, c1)) => match read_entry_spec(b, c1) {
                Err(e) => Err(e),
                Ok((e, c2)) => Ok((es.push(e), c2)),
            },
        }
    }
}

/// Reading a vault's plaintext: the record count, then that many records (bytes left
/// over after them are ignored).
pub open spec fn decoded_entries(b: Seq<u8>) -> Result<Seq<EntryView>, VaultError> {
    match read_u32_spec(b, 0) {
        None => Err(VaultError::Truncated),
        Some(n) => match read_entries_spec(b, 4, n as nat) {
            Err(e) => Err(e),
            Ok((es, _)) => Ok(es),
        },
    }
}

/// Reads a 32-bit little-endian number at `*cursor` and moves the cursor past it.
pub fn read_u32(bytes: &[u8], cursor: &mut usize) -> (r: Result<u32, VaultError>)
    ensures
        match read_u32_spec(bytes@, *old(cursor) as int) {
            None => r == Err::<u32, VaultError>(VaultError::Truncated) && *final(cursor) == *old(cursor),
            Some(v) => r == Ok::<u32, VaultError>(v) && *final(cursor) == *old(cursor) + 4,
        },
{
    if bytes.len().saturating_sub(*cursor) < 4 {
        return Err(VaultError::Truncated);
    }
    let c = *cursor;
    let v = (bytes[c] as u32) | ((bytes[c + 1] as u32) << 8) | ((bytes[c + 2] as u32) << 16) | ((
    bytes[c + 3] as u32) << 24);
    assert(bytes@.subrange(c as int, c + 4)[0] == bytes@[c as int]);
    assert(bytes@.subrange(c as int, c + 4)[1] == bytes@[c + 1]);
    assert(bytes@.subrange(c as int, c + 4)[2] == bytes@[c + 2]);
    assert(bytes@.subrange(c as int, c + 4)[3] == bytes@[c + 3]);
    *cursor = c + 4;
    Ok(v)
}

/// `String::from_utf8`: the text when the bytes are valid UTF-8.
#[verifier::external_body]
fn string_from_utf8(bytes: Vec<u8>) -> (r: Result<String, std::string::FromUtf8Error>)
    ensures
        r is Ok <==> valid_utf8(bytes@),
        r matches Ok(s) ==> s@ == decode_utf8(bytes@),
{
    String::from_utf8(bytes)
}

#[verifier::external_type_specification]
#[verifier::external_body]
pub struct ExFromUtf8Error(std::string::FromUtf8Error);

/// Reads a string record at `*cursor` and moves the cursor past it.
pub fn read_string(bytes: &[u8], cursor: &mut usize) -> (r: Result<String, VaultError>)
    ensures
        match read_string_spec(bytes@, *old(cursor) as int) {
            Err(e) => r == Err::<String, VaultError>(e) && *final(cursor) == (if read_u32_spec(
                bytes@,
                *old(cursor) as int,
            ) is None {
                *old(cursor) as int
            } else {
                *old(cursor) + 4
            }),
            Ok((s, c)) => r matches Ok(v) && v@ == s && *final(cursor) == c,
        },
{
    let len = match read_u32(bytes, cursor) {
        Ok(n) => n as usize,
        Err(e) => return Err(e),
    };
    if bytes.len().saturating_sub(*cursor) < len {
        return Err(VaultError::Truncated);
    }
    let start = *cursor;
    let raw = slice_to_vec(slice_subrange(bytes, start, start + len));
    match string_from_utf8(raw) {
        Ok(value) => {
            *cursor = start + len;
            Ok(value)
        },
        Err(_) => Err(VaultError::InvalidUtf8),
    }
}

proof fn lemma_read_entries_error_stays(b: Seq<u8>, c: int, m: nat, n: nat, e: VaultError)
    requires
        m <= n,
        read_entries_spec(b, c, m) == Err::<(Seq<EntryView>, int), VaultError>(e),
    ensures
        read_entries_spec(b, c, n) == Err::<(Seq<EntryView>, int), VaultError>(e),
    decreases n,
{
    if n > m {
        lemma_read_entries_error_stays(b, c, m, (n - 1) as nat, e);
    }
}

/// Parses a vault's plaintext back into records.
pub fn decode_entries(bytes: &[u8]) -> (r: Result<Vec<PasswordEntry>, VaultError>)
    ensures
        match decoded_entries(bytes@) {
            Err(e) => r == Err::<Vec<PasswordEntry>, VaultError>(e),
            Ok(es) => r matches Ok(v) && views(v@) == es,
        },
{
    let mut cursor: usize = 0;
    let count = match read_u32(bytes, &mut cursor) {
        Ok(n) => n,
        Err(e) => return Err(e),
    };
    let mut entries: Vec<PasswordEntry> = Vec::new();
    let mut i: u32 = 0;
    assert(views(entries@) =~= Seq::<EntryView>::empty());
    while i < count
        invariant
            i <= count,
            read_u32_spec(bytes@, 0) == Some(count),
            read_entries_spec(bytes@, 4, i as nat) == Ok::<(Seq<EntryView>, int), VaultError>(
                (views(entries@), cursor as int),
            ),
        decreases count - i,
    {
        let ghost c0 = cursor as int;
        let category = match read_string(bytes, &mut cursor) {
            Ok(s) => s,
            Err(e) => {
                proof { lemma_read_entries_error_stays(bytes@, 4, (i + 1) as nat, count as nat, e); }
                return Err(e);
            },
        };
        let title = match read_string(bytes, &mut cursor) {
            Ok(s) => s,
            Err(e) => {
                proof { lemma_read_entries_error_stays(bytes@, 4, (i + 1) as nat, count as nat, e); }
                return Err(e);
            },
        };
        let username = match read_string(bytes, &mut cursor) {
            Ok(s) => s,
            Err(e) => {
                proof { lemma_read_entries_error_stays(bytes@, 4, (i + 1) as nat, count as nat, e); }
                return Err(e);
            },
        };
        let password = match read_string(bytes, &mut cursor) {
            Ok(s) => s,
            Err(e) => {
                proof { lemma_read_entries_error_stays(bytes@, 4, (i + 1) as nat, count as nat, e); }
                return Err(e);
            },
        };
        let notes = match read_string(bytes, &mut cursor) {
            Ok(s) => s,
            Err(e) => {
                proof { lemma_read_entries_error_stays(bytes@, 4, (i + 1) as nat, count as nat, e); }
                return Err(e);
            },
        };
        let ghost old_views = views(entries@);
        let entry = PasswordEntry { category, title, username, password, notes };
        entries.push(entry);
        assert(views(entries@) =~= old_views.push(entry@));
        i = i + 1;
    }
    Ok(entries)
}

/// The number of PBKDF2 rounds used when a vault is written.
pub const PBKDF2_ROUNDS: u32 = 120_000;

/// The bytes every vault file starts with: `WALLETUI1`.
pub open spec fn magic() -> Seq<u8> {
    seq![0x57u8, 0x41u8, 0x4cu8, 0x4cu8, 0x45u8, 0x54u8, 0x55u8, 0x49u8, 0x31u8]
}

/// Length of the fixed part of a vault: magic (9), rounds (4), salt (16), nonce (16)
/// and tag (32).
pub open spec fn header_len() -> int {
    77int
}

fn magic_bytes() -> (r: Vec<u8>)
    ensures
        r@ == magic(),
{
    let r: Vec<u8> = vec![0x57u8, 0x41u8, 0x4cu8, 0x4cu8, 0x45u8, 0x54u8, 0x55u8, 0x49u8, 0x31u8];
    assert(r@ =~= magic());
    r
}

/// The data the authentication tag covers: salt, nonce and ciphertext.
pub fn mac_data(salt: &[u8], nonce: &[u8], ciphertext: &[u8]) -> (r: Vec<u8>)
    ensures
        r@ == salt@ + nonce@ + ciphertext@,
{
    let mut data: Vec<u8> = Vec::new();
    data.extend_from_slice(salt);
    data.extend_from_slice(nonce);
    data.extend_from_slice(ciphertext);
    assert(data@ =~= salt@ + nonce@ + ciphertext@);
    data
}

/// The vault written for `entries` under `master` with the given salt and nonce.
pub open spec fn sealed_vault(entries: Seq<EntryView>, master: Seq<char>, salt: Seq<u8>, nonce: Seq<u8>) -> Seq<u8> {
    let key = pbkdf2_hmac_sha256(encode_utf8(master), salt, PBKDF2_ROUNDS);
    let ciphertext = xor_stream_spec(key, nonce, encoded_entries(entries));
    magic() + u32_le(PBKDF2_ROUNDS) + salt + nonce + ciphertext + hmac_sha256(key, salt + nonce + ciphertext)
}

/// What opening the vault `bytes` with `master` gives.
pub open spec fn opened_vault(bytes: Seq<u8>, master: Seq<char>) -> Result<Seq<EntryView>, VaultError> {
    if bytes.len() < header_len() || bytes.subrange(0, 9) != magic() {
        Err(VaultError::BadFormat)
    } else {
        let rounds = u32_from_le(bytes.subrange(9, 13));
        let salt = bytes.subrange(13, 29);
        let nonce = bytes.subrange(29, 45);
        let mac_start = bytes.len() - 32;
        let ciphertext = bytes.subrange(45, mac_start);
        let expected = bytes.subrange(mac_start, bytes.len() as int);
        let key = pbkdf2_hmac_sha256(encode_utf8(master), salt, rounds);
        if expected != hmac_sha256(key, salt + nonce + ciphertext) {
            Err(VaultError::WrongKeyOrCorrupted)
        } else {
            decoded_entries(xor_stream_spec(key, nonce, ciphertext))
        }
    }
}

/// Encrypts the records under `master_key`. The salt and nonce are supplied by the
/// caller, who draws them fresh for every save.
pub fn encrypt_entries(
    entries: &[PasswordEntry],
    master_key: &str,
    salt: &[u8; 16],
    nonce: &[u8; 16],
) -> (r: Result<Vec<u8>, VaultError>)
    ensures
        r matches Ok(v) && v@ == sealed_vault(views(entries@), master_key@, salt@, nonce@)
            && v@.len() == header_len() + encoded_entries(views(entries@)).len(),
{
    let salt_s = salt.as_slice();
    let nonce_s = nonce.as_slice();
    let key = pbkdf2_sha256(master_key.as_bytes(), salt_s, PBKDF2_ROUNDS);
    let plaintext = encode_entries(entries);
    let ciphertext = xor_stream(key.as_slice(), nonce_s, plaintext.as_slice());
    let data = mac_data(salt_s, nonce_s, ciphertext.as_slice());
    let mac = hmac_sha256_tag(key.as_slice(), data.as_slice());
    let mut output = magic_bytes();
    push_u32_le(&mut output, PBKDF2_ROUNDS);
    output.extend_from_slice(salt_s);
    output.extend_from_slice(nonce_s);
    output.extend_from_slice(ciphertext.as_slice());
    output.extend_from_slice(mac.as_slice());
    assert(output@ =~= sealed_vault(views(entries@), master_key@, salt@, nonce@));
    Ok(output)
}

fn starts_with_magic(bytes: &[u8]) -> (r: bool)
    requires
        bytes@.len() >= 9,
    ensures
        r == (bytes@.subrange(0, 9) == magic()),
{
    let m = magic_bytes();
    let head = slice_subrange(bytes, 0, 9);
    constant_time_eq(head, m.as_slice())
}

/// Decrypts and parses a vault with `master_key`.
pub fn decrypt_entries(bytes: &[u8], master_key: &str) -> (r: Result<Vec<PasswordEntry>, VaultError>)
    ensures
        match opened_vault(bytes@, master_key@) {
            Err(e) => r == Err::<Vec<PasswordEntry>, VaultError>(e),
            Ok(es) => r matches Ok(v) && views(v@) == es,
        },
{
    if bytes.len() < 77 || !starts_with_magic(bytes) {
        return Err(VaultError::BadFormat);
    }
    let mut cursor: usize = 9;
    let rounds = match read_u32(bytes, &mut cursor) {
        Ok(v) => v,
        Err(e) => return Err(e),
    };
    let salt = slice_subrange(bytes, 13, 29);
    let nonce = slice_subrange(bytes, 29, 45);
    let mac_start = bytes.len() - 32;
    let ciphertext = slice_subrange(bytes, 45, mac_start);
    let expected_mac = slice_subrange(bytes, mac_start, bytes.len());
    let key = pbkdf2_sha256(master_key.as_bytes(), salt, rounds);
    let data = mac_data(salt, nonce, ciphertext);
    let actual_mac = hmac_sha256_tag(key.as_slice(), data.as_slice());
    if !constant_time_eq(expected_mac, actual_mac.as_slice()) {
        return Err(VaultError::WrongKeyOrCorrupted);
    }
    let plaintext = xor_stream(key.as_slice(), nonce, ciphertext);
    decode_entries(plaintext.as_slice())
}

/// Every field of the record has a UTF-8 length that a 32-bit count can hold.
pub open spec fn entry_fits(e: EntryView) -> bool {
    &&& encode_utf8(e.category).len() <= u32::MAX
    &&& encode_utf8(e.title).len() <= u32::MAX
    &&& encode_utf8(e.username).len() <= u32::MAX
    &&& encode_utf8(e.password).len() <= u32::MAX
    &&& encode_utf8(e.notes).len() <= u32::MAX
}

/// The records can be written without any count wrapping around.
pub open spec fn entries_fit(es: Seq<EntryView>) -> bool {
    &&& es.len() <= u32::MAX
    &&& forall|i: int| 0 <= i < es.len() ==> entry_fits(#[trigger] es[i])
}

proof fn lemma_entries_body_concat(a: Seq<EntryView>, b: Seq<EntryView>)
    ensures
        entries_body(a + b) == entries_body(a) + entries_body(b),
    decreases b.len(),
{
    if b.len() == 0 {
        assert(a + b =~= a);
        assert(entries_body(a) + entries_body(b) =~= entries_body(a));
    } else {
        assert((a + b).drop_last() =~= a + b.drop_last());
        assert((a + b).last() == b.last());
        lemma_entries_body_concat(a, b.drop_last());
        assert(entries_body(a + b) =~= entries_body(a) + entries_body(b));
    }
}

proof fn lemma_read_string_record(b: Seq<u8>, c: int, s: Seq<char>)
    requires
        0 <= c,
        c + string_record(s).len() <= b.len(),
        b.subrange(c, c + string_record(s).len()) == string_record(s),
        encode_utf8(s).len() <= u32::MAX,
    ensures
        read_string_spec(b, c) == Ok::<(Seq<char>, int), VaultError>((s, c + string_record(s).len())),
{
    broadcast use {encode_utf8_valid_utf8, encode_utf8_decode_utf8};

    let raw = encode_utf8(s);
    let n = raw.len() as u32;
    assert(n as int == raw.len());
    let rec = string_record(s);
    assert(b.subrange(c, c + 4) =~= rec.subrange(0, 4));
    assert(rec.subrange(0, 4) =~= u32_le(n));
    lemma_u32_le_round_trip(n);
    assert(read_u32_spec(b, c) == Some(n));
    assert(b.subrange(c + 4, c + 4 + n) =~= rec.subrange(4, rec.len() as int));
    assert(rec.subrange(4, rec.len() as int) =~= raw);
}

proof fn lemma_split_at(b: Seq<u8>, c: int, x: Seq<u8>, y: Seq<u8>)
    requires
        0 <= c,
        c + x.len() + y.len() <= b.len(),
        b.subrange(c, c + x.len() + y.len()) == x + y,
    ensures
        b.subrange(c, c + x.len()) == x,
        b.subrange(c + x.len(), c + x.len() + y.len()) == y,
{
    assert(b.subrange(c, c + x.len()) =~= (x + y).subrange(0, x.len() as int));
    assert(b.subrange(c + x.len(), c + x.len() + y.len()) =~= (x + y).subrange(x.len() as int, (x.len() + y.len()) as int));
}

proof fn lemma_read_entry_record(b: Seq<u8>, c: int, e: EntryView)
    requires
        0 <= c,
        c + entry_record(e).len() <= b.len(),
        b.subrange(c, c + entry_record(e).len()) == entry_record(e),
        entry_fits(e),
    ensures
        read_entry_spec(b, c) == Ok::<(EntryView, int), VaultError>((e, c + entry_record(e).len())),
{
    let r1 = string_record(e.category);
    let r2 = string_record(e.title);
    let r3 = string_record(e.username);
    let r4 = string_record(e.password);
    let r5 = string_record(e.notes);
    lemma_split_at(b, c, r1 + r2 + r3 + r4, r5);
    lemma_split_at(b, c, r1 + r2 + r3, r4);
    lemma_split_at(b, c, r1 + r2, r3);
    lemma_split_at(b, c, r1, r2);
    let c1 = c + r1.len();
    let c2 = c1 + r2.len();
    let c3 = c2 + r3.len();
    let c4 = c3 + r4.len();
    lemma_read_string_record(b, c, e.category);
    lemma_read_string_record(b, c1, e.title);
    lemma_read_string_record(b, c2, e.username);
    lemma_read_string_record(b, c3, e.password);
    lemma_read_string_record(b, c4, e.notes);
}

proof fn lemma_subrange_middle(x: Seq<u8>, y: Seq<u8>, z: Seq<u8>)
    ensures
        (x + y + z).subrange(x.len() as int, (x.len() + y.len()) as int) == y,
{
    assert((x + y + z).subrange(x.len() as int, (x.len() + y.len()) as int) =~= y);
}

proof fn lemma_body_split(es: Seq<EntryView>, j: int)
    requires
        0 <= j < es.len(),
    ensures
        entries_body(es) == entries_body(es.take(j)) + entry_record(es[j]) + entries_body(es.skip(j + 1)),
{
    let upto = es.take(j + 1);
    let rest = es.skip(j + 1);
    assert(upto.drop_last() =~= es.take(j));
    assert(upto.last() == es[j]);
    assert(upto + rest =~= es);
    lemma_entries_body_concat(upto, rest);
}

#[verifier::spinoff_prover]
#[verifier::rlimit(40)]
proof fn lemma_read_entries_prefix(es: Seq<EntryView>, k: nat)
    requires
        k <= es.len(),
        entries_fit(es),
    ensures
        read_entries_spec(encoded_entries(es), 4, k) == Ok::<(Seq<EntryView>, int), VaultError>(
            (es.take(k as int), 4int + entries_body(es.take(k as int)).len()),
        ),
    decreases k,
{
    let b = encoded_entries(es);
    if k == 0 {
        assert(es.take(0) =~= Seq::<EntryView>::empty());
    } else {
        let j = (k - 1) as int;
        lemma_read_entries_prefix(es, j as nat);
        let before = es.take(j);
        let e = es[j];
        let rec = entry_record(e);
        let head = u32_le(es.len() as u32) + entries_body(before);
        lemma_body_split(es, j);
        assert(b =~= head + rec + entries_body(es.skip(j + 1)));
        lemma_subrange_middle(head, rec, entries_body(es.skip(j + 1)));
        let c: int = 4int + entries_body(before).len();
        assert(head.len() == c);
        assert(entry_fits(e));
        lemma_read_entry_record(b, c, e);
        let upto = es.take(k as int);
        assert(upto.drop_last() =~= before);
        assert(before.push(e) =~= upto);
        assert(entries_body(upto) == entries_body(before) + rec);
    }
}

/// Reading back what `encode_entries` wrote gives the same records.
pub proof fn lemma_decode_encoded_entries(es: Seq<EntryView>)
    requires
        entries_fit(es),
    ensures
        decoded_entries(encoded_entries(es)) == Ok::<Seq<EntryView>, VaultError>(es),
{
    let b = encoded_entries(es);
    let n = es.len() as u32;
    assert(b.subrange(0, 4) =~= u32_le(n));
    lemma_u32_le_round_trip(n);
    lemma_read_entries_prefix(es, es.len());
    assert(es.take(es.len() as int) =~= es);
}

/// A vault written with a master password opens with the same password and gives the
/// same records back. (The length condition holds of every vault that
/// `encrypt_entries` writes: its tag is 32 bytes long.)
pub proof fn lemma_open_sealed_vault(es: Seq<EntryView>, master: Seq<char>, salt: Seq<u8>, nonce: Seq<u8>)
    requires
        salt.len() == 16,
        nonce.len() == 16,
        entries_fit(es),
        sealed_vault(es, master, salt, nonce).len() == header_len() + encoded_entries(es).len(),
    ensures
        opened_vault(sealed_vault(es, master, salt, nonce), master) == Ok::<Seq<EntryView>, VaultError>(es),
{
    let key = pbkdf2_hmac_sha256(encode_utf8(master), salt, PBKDF2_ROUNDS);
    let plaintext = encoded_entries(es);
    let ciphertext = xor_stream_spec(key, nonce, plaintext);
    let tag = hmac_sha256(key, salt + nonce + ciphertext);
    let bytes = sealed_vault(es, master, salt, nonce);
    assert(bytes == magic() + u32_le(PBKDF2_ROUNDS) + salt + nonce + ciphertext + tag);
    assert(bytes.subrange(0, 9) =~= magic());
    assert(bytes.subrange(9, 13) =~= u32_le(PBKDF2_ROUNDS));
    lemma_u32_le_round_trip(PBKDF2_ROUNDS);
    assert(bytes.subrange(13, 29) =~= salt);
    assert(bytes.subrange(29, 45) =~= nonce);
    let mac_start = bytes.len() - 32;
    assert(bytes.subrange(45, mac_start) =~= ciphertext);
    assert(bytes.subrange(mac_start, bytes.len() as int) =~= tag);
    lemma_xor_stream_involution(key, nonce, plaintext);
    lemma_decode_encoded_entries(es);
}

/// One xorshift step (shifts 13, 7, 17).
pub open spec fn xorshift(state: u64) -> u64 {
    let a = state ^ (state << 13u64);
    let b = a ^ (a >> 7u64);
    b ^ (b << 17u64)
}

/// The xorshift state after `n` steps from `seed`.
pub open spec fn xorshift_state(seed: u64, n: nat) -> u64
    decreases n,
{
    if n == 0 {
        seed
    } else {
        xorshift(xorshift_state(seed, (n - 1) as nat))
    }
}

/// `n` bytes drawn from `seed`: the low byte of each successive state.
pub open spec fn xorshift_bytes(seed: u64, n: nat) -> Seq<u8> {
    Seq::new(n, |i: int| (xorshift_state(seed, (i + 1) as nat) & 0xff) as u8)
}

/// The random bytes for a salt or nonce: the bytes read from the system's random
/// source when the read completed or left a nonzero byte; otherwise bytes drawn from
/// `seed` (the current time) by xorshift.
pub fn finish_random_bytes(buffer: &[u8], read_complete: bool, seed: u64) -> (r: Vec<u8>)
    ensures
        read_complete || (exists|i: int| 0 <= i < buffer@.len() && buffer@[i] != 0) ==> r@ == buffer@,
        !(read_complete || (exists|i: int| 0 <= i < buffer@.len() && buffer@[i] != 0)) ==> r@
            == xorshift_bytes(seed, buffer@.len()),
{
    if read_complete {
        return slice_to_vec(buffer);
    }
    let mut k: usize = 0;
    while k < buffer.len()
        invariant
            k <= buffer.len(),
            forall|i: int| 0 <= i < k ==> buffer@[i] == 0,
        decreases buffer.len() - k,
    {
        if buffer[k] != 0 {
            return slice_to_vec(buffer);
        }
        k = k + 1;
    }
    let mut state = seed;
    let mut out: Vec<u8> = Vec::new();
    let mut i: usize = 0;
    while i < buffer.len()
        invariant
            i <= buffer.len(),
            state == xorshift_state(seed, i as nat),
            out@ == xorshift_bytes(seed, i as nat),
        decreases buffer.len() - i,
    {
        state = state ^ (state << 13u64);
        state = state ^ (state >> 7u64);
        state = state ^ (state << 17u64);
        out.push((state & 0xff) as u8);
        i = i + 1;
        assert(out@ =~= xorshift_bytes(seed, i as nat));
    }
    out
}

} // verus!
