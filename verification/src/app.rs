//! The application state: the vault accounts with their secrets sealed under
//! the session's key, the account on display, the login input, and how key
//! presses change all of it.
use vstd::prelude::*;
use vstd::slice::slice_to_vec;

use crate::secrets;
use crate::secrets::{decrypt, encrypt, random_alphanumeric, wipe};
use crate::text;
use crate::text::{
    chars_of, push_char, pop_char, range_ends_with, range_eq, range_starts_with, split_ranges,
    string_of_range, trim_range,
};

verus! {

/// The screen on display.
#[derive(Clone, Copy, Debug, PartialEq, Eq, Structural)]
pub enum CurrentScreen {
    Login,
    Main,
}

/// A vault account. `user` and `pass` hold ciphertext while the account sits
/// in the list, and plaintext bytes once it is opened for display.
#[derive(Debug)]
pub struct Account {
    pub id: String,
    pub name: String,
    pub user: Vec<u8>,
    pub pass: Vec<u8>,
}

impl Clone for Account {
    fn clone(&self) -> (r: Self)
        ensures
            r.id == self.id,
            r.name == self.name,
            r.user@ == self.user@,
            r.pass@ == self.pass@,
    {
        Account {
            id: self.id.clone(),
            name: self.name.clone(),
            user: slice_to_vec(self.user.as_slice()),
            pass: slice_to_vec(self.pass.as_slice()),
        }
    }
}

/// What went wrong with an account's secrets, or with the choice of account.
#[derive(Clone, Copy, Debug, PartialEq, Eq, Structural)]
pub enum AccountError {
    NoSuchAccount,
    EncryptUsername,
    EncryptPassword,
    DecryptUsername,
    DecryptPassword,
}

impl AccountError {
    /// The message that goes with the error.
    pub fn message(&self) -> (m: &'static str)
        ensures
            m@ == match *self {
                AccountError::NoSuchAccount => "no account at that position"@,
                AccountError::EncryptUsername => "failed to encrypt username"@,
                AccountError::EncryptPassword => "failed to encrypt password"@,
                AccountError::DecryptUsername => "failed to decrypt username"@,
                AccountError::DecryptPassword => "failed to decrypt password"@,
            },
    {
        match self {
            AccountError::NoSuchAccount => "no account at that position",
            AccountError::EncryptUsername => "failed to encrypt username",
            AccountError::EncryptPassword => "failed to encrypt password",
            AccountError::DecryptUsername => "failed to decrypt username",
            AccountError::DecryptPassword => "failed to decrypt password",
        }
    }
}

/// The state of the application.
pub struct App {
    pub pass_input: String,
    pub clean_input: String,
    pub unlocked: bool,
    pub current_screen: CurrentScreen,
    pub accounts: Vec<Account>,
    pub selected: usize,
    pub active_account: Option<Account>,
    pub pass_copied: bool,
    pub crypto_key: String,
}

// ---------------------------------------------------------------------------
// Texts and bytes
// ---------------------------------------------------------------------------

/// The UTF-8 bytes of a text.
pub open spec fn utf8(s: Seq<char>) -> Seq<u8> {
    vstd::utf8::encode_utf8(s)
}

/// The text that `bytes` encode in UTF-8, or `fallback` where they are not
/// valid UTF-8.
pub open spec fn text_or(bytes: Seq<u8>, fallback: Seq<char>) -> Seq<char> {
    if vstd::utf8::valid_utf8(bytes) {
        vstd::utf8::decode_utf8(bytes)
    } else {
        fallback
    }
}

/// The error of `String::from_utf8`, carried through opaquely.
#[verifier::external_type_specification]
#[verifier::external_body]
pub struct ExFromUtf8Error(std::string::FromUtf8Error);

/// Calls `String::from_utf8`: as its documentation says, the string that
/// `bytes` encode where they are valid UTF-8, an error otherwise.
#[verifier::external_body]
fn string_from_utf8(bytes: Vec<u8>) -> (r: Result<String, std::string::FromUtf8Error>)
    ensures
        r is Ok <==> vstd::utf8::valid_utf8(bytes@),
        r matches Ok(s) ==> s@ == vstd::utf8::decode_utf8(bytes@),
{
    String::from_utf8(bytes)
}

impl Account {
    /// The username as text, or `"Error retrieving username"` where its bytes
    /// are not UTF-8.
    pub fn get_user(self) -> (r: String)
        ensures
            r@ == text_or(self.user@, "Error retrieving username"@),
    {
        match string_from_utf8(self.user) {
            Ok(s) => s,
            Err(_) => String::from_str("Error retrieving username"),
        }
    }

    /// The password as text, or `"Error retrieving password"` where its bytes
    /// are not UTF-8.
    pub fn get_pass(self) -> (r: String)
        ensures
            r@ == text_or(self.pass@, "Error retrieving password"@),
    {
        match string_from_utf8(self.pass) {
            Ok(s) => s,
            Err(_) => String::from_str("Error retrieving password"),
        }
    }
}

// ---------------------------------------------------------------------------
// Sealing and opening accounts
// ---------------------------------------------------------------------------

/// `cipher` holds `plain` sealed under `key`: nothing for an empty text,
/// otherwise a non-empty ciphertext that decrypts to the text's UTF-8 bytes.
#[verifier::opaque]
pub open spec fn sealed(cipher: Seq<u8>, key: Seq<u8>, plain: Seq<char>) -> bool {
    if plain.len() == 0 {
        cipher.len() == 0
    } else {
        cipher.len() > 0 && secrets::decryption(cipher, key) == Some(utf8(plain))
    }
}

/// The bytes shown for a password field that was empty.
pub open spec fn empty_pass() -> Seq<u8> {
    utf8("Empty pass"@)
}

/// The plaintext of a sealed username: empty stays empty.
pub open spec fn opened_user(cipher: Seq<u8>, key: Seq<u8>) -> Seq<u8> {
    if cipher.len() == 0 {
        cipher
    } else {
        secrets::decryption(cipher, key).unwrap()
    }
}

/// The plaintext of a sealed password: empty shows as `"Empty pass"`.
pub open spec fn opened_pass(cipher: Seq<u8>, key: Seq<u8>) -> Seq<u8> {
    if cipher.len() == 0 {
        empty_pass()
    } else {
        secrets::decryption(cipher, key).unwrap()
    }
}

/// Both secrets of `acc` decrypt under `key` (where they are not empty).
pub open spec fn opens(acc: Account, key: Seq<u8>) -> bool {
    &&& acc.user@.len() > 0 ==> secrets::decryption(acc.user@, key) is Some
    &&& acc.pass@.len() > 0 ==> secrets::decryption(acc.pass@, key) is Some
}

/// `shown` is `acc` opened under `key`.
pub open spec fn is_opened(shown: Account, acc: Account, key: Seq<u8>) -> bool {
    &&& shown.id == acc.id
    &&& shown.name == acc.name
    &&& shown.user@ == opened_user(acc.user@, key)
    &&& shown.pass@ == opened_pass(acc.pass@, key)
}

impl App {
    /// The bytes of the session key, under which the secrets are sealed.
    pub open spec fn key_bytes(self) -> Seq<u8> {
        utf8(self.crypto_key@)
    }

    /// Everything but the account on display is as in `other`.
    pub open spec fn same_but_active(self, other: App) -> bool {
        &&& self.pass_input == other.pass_input
        &&& self.clean_input == other.clean_input
        &&& self.unlocked == other.unlocked
        &&& self.current_screen == other.current_screen
        &&& self.accounts == other.accounts
        &&& self.selected == other.selected
        &&& self.pass_copied == other.pass_copied
        &&& self.crypto_key == other.crypto_key
    }
}

// ---------------------------------------------------------------------------
// Reading the vault listing into sealed accounts
// ---------------------------------------------------------------------------

/// The inputs on which `clean_string` goes through: once trimmed, a value
/// that starts with a quote has, after that quote, the closing `",` (where it
/// ends with a comma) or `"` (where it does not).
pub open spec fn clean_ok(input: Seq<char>) -> bool {
    let d = text::trim(input);
    text::starts_with(d, seq!['"']) ==> if text::ends_with(d, seq![',']) {
        text::ends_with(d.drop_first(), seq!['"', ','])
    } else {
        text::ends_with(d.drop_first(), seq!['"'])
    }
}

/// A value without its quotes: the trimmed input without its opening `"`
/// and its closing `",` or `"`, trimmed again; empty where the input is not
/// quoted.
pub open spec fn cleaned(input: Seq<char>) -> Seq<char> {
    let d = text::trim(input);
    if text::starts_with(d, seq!['"']) {
        if text::ends_with(d, seq![',']) {
            text::trim(text::strip_suffix(d.drop_first(), seq!['"', ',']))
        } else {
            text::trim(text::strip_suffix(d.drop_first(), seq!['"']))
        }
    } else {
        Seq::empty()
    }
}

/// The range of the cleaned value of `v[lo..hi]`.
fn clean_range(v: &Vec<char>, lo: usize, hi: usize) -> (r: (usize, usize))
    requires
        lo <= hi <= v.len(),
        clean_ok(v@.subrange(lo as int, hi as int)),
    ensures
        r.0 <= r.1 <= v.len(),
        v@.subrange(r.0 as int, r.1 as int) == cleaned(v@.subrange(lo as int, hi as int)),
        text::is_trimmed(v@.subrange(r.0 as int, r.1 as int)),
{
    let quote = chars_of("\"");
    let comma = chars_of(",");
    proof {
        reveal_strlit("\"");
        reveal_strlit(",");
        assert(quote@ =~= seq!['"']);
        assert(comma@ =~= seq![',']);
    }
    let (a, b) = trim_range(v, lo, hi);
    let ghost d = v@.subrange(a as int, b as int);
    if range_starts_with(v, a, b, &quote) {
        proof {
            assert(d.drop_first() =~= v@.subrange(a + 1, b as int));
        }
        if range_ends_with(v, a, b, &comma) {
            let r = trim_range(v, a + 1, b - 2);
            proof {
                assert(text::strip_suffix(d.drop_first(), seq!['"', ',']) =~= v@.subrange(
                    a + 1,
                    b - 2,
                ));
            }
            r
        } else {
            let r = trim_range(v, a + 1, b - 1);
            proof {
                assert(text::strip_suffix(d.drop_first(), seq!['"']) =~= v@.subrange(
                    a + 1,
                    b - 1,
                ));
            }
            r
        }
    } else {
        proof {
            assert(v@.subrange(a as int, a as int) =~= Seq::<char>::empty());
        }
        (a, a)
    }
}

/// Takes the value out of a listing field: trimmed, without its quotes and
/// the trailing comma; empty where the value is not quoted (`null`).
pub fn clean_string(input: &str) -> (r: String)
    requires
        clean_ok(input@),
    ensures
        r@ == cleaned(input@),
        text::is_trimmed(r@),
{
    let v = chars_of(input);
    proof {
        assert(v@.subrange(0, v@.len() as int) =~= v@);
    }
    let (a, b) = clean_range(&v, 0, v.len());
    string_of_range(&v, a, b)
}

/// The fields of one vault entry, as texts.
pub struct Entry {
    pub id: Seq<char>,
    pub name: Seq<char>,
    pub user: Seq<char>,
    pub pass: Seq<char>,
}

/// The text between the first and the second `:` of a line.
pub open spec fn field_text(line: Seq<char>) -> Seq<char> {
    text::split(line, ':')[1]
}

/// The line has a `:`.
pub open spec fn has_field(line: Seq<char>) -> bool {
    text::split(line, ':').len() >= 2
}

/// The lines of an object from which an entry can be read: at least four,
/// id, name, username and password, each with a `:` and a value that
/// `clean_string` takes.
pub open spec fn entry_ok(cur: Seq<Seq<char>>) -> bool {
    &&& cur.len() >= 4
    &&& has_field(cur[0])
    &&& has_field(cur[1])
    &&& has_field(cur[2])
    &&& has_field(cur[3])
    &&& clean_ok(field_text(cur[0]))
    &&& clean_ok(text::trim(field_text(cur[1])))
    &&& clean_ok(text::trim(field_text(cur[2])))
    &&& clean_ok(text::trim(field_text(cur[3])))
}

/// The entry that the first four lines of an object give.
pub open spec fn entry_of(cur: Seq<Seq<char>>) -> Entry {
    Entry {
        id: cleaned(field_text(cur[0])),
        name: cleaned(text::trim(field_text(cur[1]))),
        user: cleaned(text::trim(field_text(cur[2]))),
        pass: cleaned(text::trim(field_text(cur[3]))),
    }
}

/// The state of the line-by-line reading of the listing.
pub struct Scan {
    /// Inside an object.
    pub reading: bool,
    /// The lines of the object so far.
    pub current: Seq<Seq<char>>,
    /// The entries read so far.
    pub entries: Seq<Entry>,
    /// No object so far was short of lines or values.
    pub ok: bool,
}

/// How one line changes the reading: `{` opens an object, `}` closes it and
/// reads its entry, any other line is kept while inside an object.
pub open spec fn scan_step(st: Scan, line: Seq<char>) -> Scan {
    if line == "{"@ {
        Scan { reading: true, current: st.current, entries: st.entries, ok: st.ok }
    } else if line == "}"@ {
        Scan {
            reading: false,
            current: Seq::empty(),
            entries: st.entries.push(entry_of(st.current)),
            ok: st.ok && entry_ok(st.current),
        }
    } else if st.reading {
        Scan { reading: st.reading, current: st.current.push(line), entries: st.entries, ok: st.ok }
    } else {
        st
    }
}

/// The reading after all of `lines`.
#[verifier::opaque]
pub open spec fn scan(lines: Seq<Seq<char>>) -> Scan
    decreases lines.len(),
{
    if lines.len() == 0 {
        Scan { reading: false, current: Seq::empty(), entries: Seq::empty(), ok: true }
    } else {
        scan_step(scan(lines.drop_last()), lines.last())
    }
}

/// The listing can be read: every object has the lines and values an entry
/// needs.
pub open spec fn items_ok(items: Seq<char>) -> bool {
    scan(text::split(items, '\n')).ok
}

/// The entries of the listing, one per object.
pub open spec fn item_entries(items: Seq<char>) -> Seq<Entry> {
    scan(text::split(items, '\n')).entries
}

/// `acc` is `e` with its secrets sealed under `key`.
pub open spec fn account_holds(acc: Account, key: Seq<u8>, e: Entry) -> bool {
    &&& acc.id@ == e.id
    &&& acc.name@ == e.name
    &&& sealed(acc.user@, key, e.user)
    &&& sealed(acc.pass@, key, e.pass)
}

/// Reading takes one line at a time.
pub proof fn lemma_scan_next(lines: Seq<Seq<char>>, k: int)
    requires
        0 <= k < lines.len(),
    ensures
        scan(lines.take(k + 1)) == scan_step(scan(lines.take(k)), lines[k]),
{
    reveal(scan);
    assert(lines.take(k + 1).drop_last() =~= lines.take(k));
}

/// Reading starts with nothing read.
pub proof fn lemma_scan_start(lines: Seq<Seq<char>>)
    ensures
        scan(lines.take(0)) == (Scan {
            reading: false,
            current: Seq::empty(),
            entries: Seq::empty(),
            ok: true,
        }),
{
    reveal(scan);
    assert(lines.take(0) =~= Seq::<Seq<char>>::empty());
}

/// Reading a prefix of the lines: what it finds stays, and a failure stays.
pub proof fn lemma_scan_prefix(lines: Seq<Seq<char>>, k: int)
    requires
        0 <= k <= lines.len(),
    ensures
        scan(lines).ok ==> scan(lines.take(k)).ok,
        scan(lines.take(k)).entries.len() <= scan(lines).entries.len(),
        forall|i: int|
            0 <= i < scan(lines.take(k)).entries.len() ==> #[trigger] scan(lines.take(k)).entries[i]
                == scan(lines).entries[i],
    decreases lines.len() - k,
{
    if k < lines.len() {
        lemma_scan_prefix(lines, k + 1);
        lemma_scan_next(lines, k);
        let s0 = scan(lines.take(k));
        let s1 = scan(lines.take(k + 1));
        assert(s1 == scan_step(s0, lines[k]));
        assert forall|i: int| 0 <= i < s0.entries.len() implies #[trigger] s0.entries[i]
            == scan(lines).entries[i] by {
            assert(s1.entries[i] == s0.entries[i]);
            assert(s1.entries[i] == scan(lines).entries[i]);
        }
    } else {
        assert(lines.take(k) =~= lines);
    }
}

/// The range of the value in line `line`: the text after its first `:`,
/// trimmed first where `trimmed`, then cleaned.
fn value_range(v: &Vec<char>, line: (usize, usize), trimmed: bool) -> (r: (usize, usize))
    requires
        line.0 <= line.1 <= v.len(),
        has_field(v@.subrange(line.0 as int, line.1 as int)),
        trimmed ==> clean_ok(text::trim(field_text(v@.subrange(line.0 as int, line.1 as int)))),
        !trimmed ==> clean_ok(field_text(v@.subrange(line.0 as int, line.1 as int))),
    ensures
        r.0 <= r.1 <= v.len(),
        trimmed ==> v@.subrange(r.0 as int, r.1 as int) == cleaned(
            text::trim(field_text(v@.subrange(line.0 as int, line.1 as int))),
        ),
        !trimmed ==> v@.subrange(r.0 as int, r.1 as int) == cleaned(
            field_text(v@.subrange(line.0 as int, line.1 as int)),
        ),
{
    let parts = split_ranges(v, line.0, line.1, ':');
    let (p0, p1) = parts[1];
    proof {
        assert(text::pieces(v@, parts@)[1] == v@.subrange(p0 as int, p1 as int));
    }
    if trimmed {
        let (t0, t1) = trim_range(v, p0, p1);
        clean_range(v, t0, t1)
    } else {
        clean_range(v, p0, p1)
    }
}

/// A text that sealing under `key` can take: an empty one, or one whose
/// UTF-8 bytes are within what AES-256-GCM-SIV encrypts (2^36 bytes) under a
/// key within what Argon2 accepts as a password (2^32 - 1 bytes).
pub open spec fn sealable(text: Seq<char>, key: Seq<u8>) -> bool {
    text.len() == 0 || (utf8(text).len() <= 0x10_0000_0000 && key.len() <= 0xFFFF_FFFF)
}

/// Both secrets of the entry can be sealed under `key`.
pub open spec fn entry_sealable(e: Entry, key: Seq<u8>) -> bool {
    sealable(e.user, key) && sealable(e.pass, key)
}

/// Every entry's secrets can be sealed under `key`.
pub open spec fn all_sealable(entries: Seq<Entry>, key: Seq<u8>) -> bool {
    forall|i: int| 0 <= i < entries.len() ==> entry_sealable(#[trigger] entries[i], key)
}

/// Seals a text under `key`: empty stays empty, anything else is encrypted;
/// the plaintext copy is wiped afterwards.
fn seal(plain: String, key: &[u8]) -> (r: Option<Vec<u8>>)
    ensures
        r matches Some(c) ==> sealed(c@, key@, plain@),
        r is Some <==> sealable(plain@, key@),
{
    proof {
        reveal(sealed);
    }
    if plain.as_str().is_empty() {
        return Some(Vec::new());
    }
    let mut plain_copy = plain;
    let bytes: &[u8] = plain_copy.as_str().as_bytes();
    match encrypt(bytes, key) {
        Ok(c) => {
            wipe(&mut plain_copy);
            Some(c)
        },
        Err(_) => None,
    }
}

/// Reads the entry of an object and seals its secrets.
fn seal_entry(v: &Vec<char>, cur: &Vec<(usize, usize)>, key: &[u8]) -> (r: Result<
    Account,
    AccountError,
>)
    requires
        forall|i: int| 0 <= i < cur@.len() ==> (#[trigger] cur@[i]).0 <= cur@[i].1 <= v@.len(),
        entry_ok(text::pieces(v@, cur@)),
    ensures
        r matches Ok(acc) ==> account_holds(acc, key@, entry_of(text::pieces(v@, cur@))),
        r is Ok ==> sealable(entry_of(text::pieces(v@, cur@)).user, key@) && sealable(
            entry_of(text::pieces(v@, cur@)).pass,
            key@,
        ),
        r matches Err(e) ==> (e == AccountError::EncryptUsername && !sealable(
            entry_of(text::pieces(v@, cur@)).user,
            key@,
        )) || (e == AccountError::EncryptPassword && sealable(
            entry_of(text::pieces(v@, cur@)).user,
            key@,
        ) && !sealable(entry_of(text::pieces(v@, cur@)).pass, key@)),
{
    let ghost lines = text::pieces(v@, cur@);
    proof {
        assert(lines[0] == v@.subrange(cur@[0].0 as int, cur@[0].1 as int));
        assert(lines[1] == v@.subrange(cur@[1].0 as int, cur@[1].1 as int));
        assert(lines[2] == v@.subrange(cur@[2].0 as int, cur@[2].1 as int));
        assert(lines[3] == v@.subrange(cur@[3].0 as int, cur@[3].1 as int));
    }
    let (a, b) = value_range(v, cur[0], false);
    let id = string_of_range(v, a, b);
    let (a, b) = value_range(v, cur[1], true);
    let name = string_of_range(v, a, b);
    let (a, b) = value_range(v, cur[2], true);
    let raw_user = string_of_range(v, a, b);
    let (a, b) = value_range(v, cur[3], true);
    let raw_pass = string_of_range(v, a, b);
    let user = match seal(raw_user, key) {
        Some(c) => c,
        None => return Err(AccountError::EncryptUsername),
    };
    let pass = match seal(raw_pass, key) {
        Some(c) => c,
        None => return Err(AccountError::EncryptPassword),
    };
    Ok(Account { id, name, user, pass })
}

/// Reads the entry of the object whose lines are `current` and appends it,
/// sealed, to `accounts`.
fn close_object(
    v: &Vec<char>,
    current: &Vec<(usize, usize)>,
    key: &[u8],
    accounts: &mut Vec<Account>,
    Ghost(entries): Ghost<Seq<Entry>>,
) -> (r: Result<(), AccountError>)
    requires
        forall|i: int|
            0 <= i < current@.len() ==> (#[trigger] current@[i]).0 <= current@[i].1 <= v@.len(),
        entry_ok(text::pieces(v@, current@)),
        old(accounts)@.len() == entries.len(),
        forall|i: int|
            0 <= i < entries.len() ==> account_holds(#[trigger] old(accounts)@[i], key@, entries[i]),
    ensures
        r is Ok ==> {
            &&& final(accounts)@.len() == entries.len() + 1
            &&& forall|i: int|
                0 <= i <= entries.len() ==> account_holds(
                    #[trigger] final(accounts)@[i],
                    key@,
                    entries.push(entry_of(text::pieces(v@, current@)))[i],
                )
        },
        r is Ok ==> sealable(entry_of(text::pieces(v@, current@)).user, key@) && sealable(
            entry_of(text::pieces(v@, current@)).pass,
            key@,
        ),
        r matches Err(e) ==> (e == AccountError::EncryptUsername && !sealable(
            entry_of(text::pieces(v@, current@)).user,
            key@,
        )) || (e == AccountError::EncryptPassword && sealable(
            entry_of(text::pieces(v@, current@)).user,
            key@,
        ) && !sealable(entry_of(text::pieces(v@, current@)).pass, key@)),
{
    match seal_entry(v, current, key) {
        Ok(acc) => {
            let ghost before = accounts@;
            accounts.push(acc);
            proof {
                assert forall|i: int| 0 <= i <= entries.len() implies account_holds(
                    #[trigger] accounts@[i],
                    key@,
                    entries.push(entry_of(text::pieces(v@, current@)))[i],
                ) by {
                    if i < entries.len() {
                        assert(accounts@[i] == before[i]);
                    }
                }
            }
            Ok(())
        },
        Err(e) => Err(e),
    }
}

/// Whether `v[lo..hi]` is a value that `clean_string` takes.
fn clean_ok_range(v: &Vec<char>, lo: usize, hi: usize) -> (r: bool)
    requires
        lo <= hi <= v.len(),
    ensures
        r == clean_ok(v@.subrange(lo as int, hi as int)),
{
    let quote = chars_of("\"");
    let comma = chars_of(",");
    let quote_comma = chars_of("\",");
    proof {
        reveal_strlit("\"");
        reveal_strlit(",");
        reveal_strlit("\",");
        assert(quote@ =~= seq!['"']);
        assert(comma@ =~= seq![',']);
        assert(quote_comma@ =~= seq!['"', ',']);
    }
    let (a, b) = trim_range(v, lo, hi);
    let ghost d = v@.subrange(a as int, b as int);
    if !range_starts_with(v, a, b, &quote) {
        return true;
    }
    proof {
        assert(d.drop_first() =~= v@.subrange(a + 1, b as int));
    }
    if range_ends_with(v, a, b, &comma) {
        range_ends_with(v, a + 1, b, &quote_comma)
    } else {
        range_ends_with(v, a + 1, b, &quote)
    }
}

/// Whether line `v[line.0..line.1]` has a `:` and, after it, a value that
/// `clean_string` takes (trimmed first where `trimmed`).
fn line_value_ok(v: &Vec<char>, line: (usize, usize), trimmed: bool) -> (r: bool)
    requires
        line.0 <= line.1 <= v.len(),
    ensures
        r == (has_field(v@.subrange(line.0 as int, line.1 as int)) && if trimmed {
            clean_ok(text::trim(field_text(v@.subrange(line.0 as int, line.1 as int))))
        } else {
            clean_ok(field_text(v@.subrange(line.0 as int, line.1 as int)))
        }),
{
    let parts = split_ranges(v, line.0, line.1, ':');
    if parts.len() < 2 {
        return false;
    }
    let (p0, p1) = parts[1];
    proof {
        assert(text::pieces(v@, parts@)[1] == v@.subrange(p0 as int, p1 as int));
    }
    if trimmed {
        let (t0, t1) = trim_range(v, p0, p1);
        clean_ok_range(v, t0, t1)
    } else {
        clean_ok_range(v, p0, p1)
    }
}

/// Whether the lines `cur` of an object make an entry.
fn entry_lines_ok(v: &Vec<char>, cur: &Vec<(usize, usize)>) -> (r: bool)
    requires
        forall|i: int| 0 <= i < cur@.len() ==> (#[trigger] cur@[i]).0 <= cur@[i].1 <= v@.len(),
    ensures
        r == entry_ok(text::pieces(v@, cur@)),
{
    let ghost lines = text::pieces(v@, cur@);
    if cur.len() < 4 {
        return false;
    }
    proof {
        assert(lines[0] == v@.subrange(cur@[0].0 as int, cur@[0].1 as int));
        assert(lines[1] == v@.subrange(cur@[1].0 as int, cur@[1].1 as int));
        assert(lines[2] == v@.subrange(cur@[2].0 as int, cur@[2].1 as int));
        assert(lines[3] == v@.subrange(cur@[3].0 as int, cur@[3].1 as int));
    }
    line_value_ok(v, cur[0], false) && line_value_ok(v, cur[1], true) && line_value_ok(
        v,
        cur[2],
        true,
    ) && line_value_ok(v, cur[3], true)
}

/// Whether `parse_items` can read the listing: every object has the lines
/// and values an entry needs.
pub fn listing_ok(items: &str) -> (r: bool)
    ensures
        r == items_ok(items@),
{
    let v = chars_of(items);
    let open_line = chars_of("{");
    let close_line = chars_of("}");
    let lines = split_ranges(&v, 0, v.len(), '\n');
    let ghost all = text::pieces(v@, lines@);
    proof {
        assert(v@.subrange(0, v@.len() as int) =~= v@);
        lemma_scan_start(all);
    }
    let mut reading = false;
    let mut ok = true;
    let mut current: Vec<(usize, usize)> = Vec::new();
    proof {
        assert(text::pieces(v@, current@) =~= Seq::<Seq<char>>::empty());
    }
    for k in 0..lines.len()
        invariant
            all == text::pieces(v@, lines@),
            all == text::split(items@, '\n'),
            open_line@ == "{"@,
            close_line@ == "}"@,
            forall|j: int| 0 <= j < lines@.len() ==> (#[trigger] lines@[j]).0 <= lines@[j].1 <= v@.len(),
            forall|j: int| 0 <= j < current@.len() ==> (#[trigger] current@[j]).0 <= current@[j].1 <= v@.len(),
            scan(all.take(k as int)).reading == reading,
            scan(all.take(k as int)).current == text::pieces(v@, current@),
            scan(all.take(k as int)).ok == ok,
    {
        let (a, b) = lines[k];
        proof {
            lemma_scan_next(all, k as int);
            assert(all[k as int] == v@.subrange(a as int, b as int));
        }
        if range_eq(&v, a, b, &open_line) {
            reading = true;
        } else if range_eq(&v, a, b, &close_line) {
            let entry_ok_here = entry_lines_ok(&v, &current);
            ok = ok && entry_ok_here;
            reading = false;
            current = Vec::new();
            proof {
                assert(text::pieces(v@, current@) =~= Seq::<Seq<char>>::empty());
            }
        } else if reading {
            let ghost before = current@;
            current.push((a, b));
            proof {
                assert(text::pieces(v@, current@) =~= text::pieces(v@, before).push(
                    v@.subrange(a as int, b as int),
                ));
            }
        }
    }
    proof {
        assert(all.take(lines@.len() as int) =~= all);
    }
    ok
}

/// The executable state of the reading matches `st`, the reading in the
/// listing's terms, with its accounts sealed under `key`.
pub open spec fn reading_matches(
    st: Scan,
    v: Seq<char>,
    reading: bool,
    current: Seq<(usize, usize)>,
    accounts: Seq<Account>,
    key: Seq<u8>,
) -> bool {
    &&& st.reading == reading
    &&& forall|j: int| 0 <= j < current.len() ==> (#[trigger] current[j]).0 <= current[j].1 <= v.len()
    &&& st.current == text::pieces(v, current)
    &&& st.entries.len() == accounts.len()
    &&& forall|i: int| 0 <= i < accounts.len() ==> account_holds(#[trigger] accounts[i], key, st.entries[i])
    &&& all_sealable(st.entries, key)
}

/// Takes one line `v[line.0..line.1]` of the listing into the reading.
fn read_line(
    v: &Vec<char>,
    line: (usize, usize),
    open_line: &Vec<char>,
    close_line: &Vec<char>,
    key: &[u8],
    reading: &mut bool,
    current: &mut Vec<(usize, usize)>,
    accounts: &mut Vec<Account>,
    Ghost(st): Ghost<Scan>,
) -> (r: Result<(), AccountError>)
    requires
        line.0 <= line.1 <= v@.len(),
        open_line@ == "{"@,
        close_line@ == "}"@,
        reading_matches(st, v@, *old(reading), old(current)@, old(accounts)@, key@),
        scan_step(st, v@.subrange(line.0 as int, line.1 as int)).ok,
    ensures
        r is Ok ==> reading_matches(
            scan_step(st, v@.subrange(line.0 as int, line.1 as int)),
            v@,
            *final(reading),
            final(current)@,
            final(accounts)@,
            key@,
        ),
        r matches Err(e) ==> {
            let added = scan_step(st, v@.subrange(line.0 as int, line.1 as int)).entries;
            &&& added.len() == st.entries.len() + 1
            &&& (e == AccountError::EncryptUsername && !sealable(added.last().user, key@)) || (e
                == AccountError::EncryptPassword && sealable(added.last().user, key@)
                && !sealable(added.last().pass, key@))
        },
{
    let (a, b) = line;
    if range_eq(v, a, b, open_line) {
        *reading = true;
        Ok(())
    } else if range_eq(v, a, b, close_line) {
        *reading = false;
        let closed = close_object(v, current, key, accounts, Ghost(st.entries));
        if closed.is_err() {
            return closed;
        }
        *current = Vec::new();
        proof {
            assert(text::pieces(v@, current@) =~= Seq::<Seq<char>>::empty());
        }
        Ok(())
    } else if *reading {
        let ghost before = current@;
        current.push((a, b));
        proof {
            assert(text::pieces(v@, current@) =~= text::pieces(v@, before).push(
                v@.subrange(a as int, b as int),
            ));
        }
        Ok(())
    } else {
        Ok(())
    }
}

/// Reads the vault listing (`bw list items` through `jq`, one object per
/// `{ ... }` block) into accounts whose username and password are encrypted
/// under `crypto_key`.
pub fn parse_items(items: String, crypto_key: String) -> (r: Result<Vec<Account>, AccountError>)
    requires
        items_ok(items@),
    ensures
        r matches Ok(accounts) ==> {
            &&& accounts@.len() == item_entries(items@).len()
            &&& forall|i: int|
                0 <= i < accounts@.len() ==> account_holds(
                    #[trigger] accounts@[i],
                    utf8(crypto_key@),
                    item_entries(items@)[i],
                )
        },
        r matches Err(e) ==> e == AccountError::EncryptUsername || e
            == AccountError::EncryptPassword,
        r is Ok <==> all_sealable(item_entries(items@), utf8(crypto_key@)),
        r == Err::<Vec<Account>, AccountError>(AccountError::EncryptUsername) ==> exists|i: int|
            0 <= i < item_entries(items@).len() && all_sealable(
                item_entries(items@).take(i),
                utf8(crypto_key@),
            ) && !sealable(#[trigger] item_entries(items@)[i].user, utf8(crypto_key@)),
        r == Err::<Vec<Account>, AccountError>(AccountError::EncryptPassword) ==> exists|i: int|
            0 <= i < item_entries(items@).len() && all_sealable(
                item_entries(items@).take(i),
                utf8(crypto_key@),
            ) && sealable(#[trigger] item_entries(items@)[i].user, utf8(crypto_key@)) && !sealable(
                item_entries(items@)[i].pass,
                utf8(crypto_key@),
            ),
{
    let v = chars_of(items.as_str());
    let key: &[u8] = crypto_key.as_str().as_bytes();
    let open_line = chars_of("{");
    let close_line = chars_of("}");
    let lines = split_ranges(&v, 0, v.len(), '\n');
    let ghost all = text::pieces(v@, lines@);
    proof {
        assert(v@.subrange(0, v@.len() as int) =~= v@);
        lemma_scan_start(all);
    }
    let mut reading = false;
    let mut current: Vec<(usize, usize)> = Vec::new();
    let mut accounts: Vec<Account> = Vec::new();
    proof {
        assert(text::pieces(v@, current@) =~= Seq::<Seq<char>>::empty());
    }
    for k in 0..lines.len()
        invariant
            all == text::pieces(v@, lines@),
            all == text::split(items@, '\n'),
            key@ == utf8(crypto_key@),
            open_line@ == "{"@,
            close_line@ == "}"@,
            scan(all).ok,
            forall|j: int| 0 <= j < lines@.len() ==> (#[trigger] lines@[j]).0 <= lines@[j].1 <= v@.len(),
            reading_matches(scan(all.take(k as int)), v@, reading, current@, accounts@, key@),
    {
        let line = lines[k];
        proof {
            lemma_scan_next(all, k as int);
            lemma_scan_prefix(all, k + 1);
            assert(all[k as int] == v@.subrange(line.0 as int, line.1 as int));
        }
        let step = read_line(
            &v,
            line,
            &open_line,
            &close_line,
            key,
            &mut reading,
            &mut current,
            &mut accounts,
            Ghost(scan(all.take(k as int))),
        );
        if let Err(e) = step {
            proof {
                let before = scan(all.take(k as int)).entries;
                let added = scan(all.take(k + 1)).entries;
                let entries = item_entries(items@);
                let i = before.len() as int;
                assert(entries == scan(all).entries);
                assert(added[i] == entries[i]);
                assert(entries.take(i) =~= before) by {
                    assert forall|j: int| 0 <= j < i implies entries.take(i)[j] == before[j] by {
                        assert(added[j] == before[j]);
                        assert(added[j] == entries[j]);
                    }
                }
                assert(!entry_sealable(entries[i], key@));
            }
            return Err(e);
        }
    }
    proof {
        assert(all.take(lines@.len() as int) =~= all);
    }
    Ok(accounts)
}

// ---------------------------------------------------------------------------
// The application state
// ---------------------------------------------------------------------------

/// A key press, as the application distinguishes them.
#[derive(Clone, Copy, Debug, PartialEq, Eq, Structural)]
pub enum KeyInput {
    Backspace,
    Enter,
    Up,
    Down,
    Char(char),
    Other,
}

/// What the surroundings are to do after a key press.
#[derive(Clone, Copy, Debug, PartialEq, Eq, Structural)]
pub enum Action {
    /// Nothing beyond the change of state.
    Nothing,
    /// Unlock the vault with the typed password and load the accounts.
    Unlock,
    /// Put the password of the account on display on the clipboard.
    CopyPass,
    /// Clear the clipboard.
    ClearClipboard,
    /// Leave, clearing the clipboard first where asked.
    Quit { clear_clipboard: bool },
    /// Opening the selected account failed.
    Failed(AccountError),
}

/// The bullet that stands for each typed character of the password.
pub open spec fn bullet() -> char {
    '\u{2022}'
}

/// `s` without its last character, if it has one.
pub open spec fn pop_last(s: Seq<char>) -> Seq<char> {
    if s.len() > 0 {
        s.drop_last()
    } else {
        s
    }
}

/// `clean` shows `pass` masked: one bullet per character.
pub open spec fn masked(clean: Seq<char>, pass: Seq<char>) -> bool {
    clean.len() == pass.len() && forall|i: int| 0 <= i < clean.len() ==> clean[i] == bullet()
}

impl App {
    /// Everything but the login input is as in `other`.
    pub open spec fn same_but_input(self, other: App) -> bool {
        &&& self.unlocked == other.unlocked
        &&& self.current_screen == other.current_screen
        &&& self.accounts == other.accounts
        &&& self.selected == other.selected
        &&& self.active_account == other.active_account
        &&& self.pass_copied == other.pass_copied
        &&& self.crypto_key == other.crypto_key
    }

    /// What opening the account at `index` comes to: no such account, a
    /// secret that does not decrypt (the username is tried first), or
    /// success.
    pub open spec fn select_result(self, index: usize) -> Result<(), AccountError> {
        if index >= self.accounts@.len() {
            Err(AccountError::NoSuchAccount)
        } else {
            let acc = self.accounts@[index as int];
            if acc.user@.len() > 0 && secrets::decryption(acc.user@, self.key_bytes()) is None {
                Err(AccountError::DecryptUsername)
            } else if acc.pass@.len() > 0 && secrets::decryption(acc.pass@, self.key_bytes())
                is None {
                Err(AccountError::DecryptPassword)
            } else {
                Ok(())
            }
        }
    }

    /// `after` is `self` with the account at `index` opened on display.
    pub open spec fn opened_at(self, after: App, index: usize) -> bool {
        &&& index < self.accounts@.len()
        &&& after.same_but_active(self)
        &&& after.active_account matches Some(shown) && is_opened(
            shown,
            self.accounts@[index as int],
            self.key_bytes(),
        )
    }

    /// How a key press on the login screen changes the state: Backspace
    /// removes the last typed character, a character is typed (and shown as
    /// a bullet), Enter asks to unlock, anything else does nothing.
    pub open spec fn login_step(self, after: App, key: KeyInput, act: Action) -> bool {
        match key {
            KeyInput::Backspace => {
                &&& act == Action::Nothing
                &&& after.same_but_input(self)
                &&& after.pass_input@ == pop_last(self.pass_input@)
                &&& after.clean_input@ == pop_last(self.clean_input@)
            },
            KeyInput::Char(c) => {
                &&& act == Action::Nothing
                &&& after.same_but_input(self)
                &&& after.pass_input@ == self.pass_input@.push(c)
                &&& after.clean_input@ == self.clean_input@.push(bullet())
            },
            KeyInput::Enter => act == Action::Unlock && after == self,
            _ => act == Action::Nothing && after == self,
        }
    }

    /// How a key press on the main screen changes the state: `q` quits
    /// (clearing the clipboard where a password was copied), Up or `k` and
    /// Down or `j` move the selection within the list, Enter opens the
    /// selected account, Backspace closes it, `c` asks to copy the password
    /// and `x` to clear the clipboard.
    pub open spec fn main_step(self, after: App, key: KeyInput, act: Action) -> bool {
        match key {
            KeyInput::Up => self.moved_up(after) && act == Action::Nothing,
            KeyInput::Down => self.moved_down(after) && act == Action::Nothing,
            KeyInput::Enter => match self.select_result(self.selected) {
                Ok(()) => self.opened_at(after, self.selected) && act == Action::Nothing,
                Err(e) => after == self && act == Action::Failed(e),
            },
            KeyInput::Backspace => {
                &&& act == Action::Nothing
                &&& after.same_but_active(self)
                &&& after.active_account is None
            },
            KeyInput::Char(c) => if c == 'q' || c == 'Q' {
                act == (Action::Quit { clear_clipboard: self.pass_copied }) && after == self
            } else if c == 'k' || c == 'K' {
                self.moved_up(after) && act == Action::Nothing
            } else if c == 'j' || c == 'J' {
                self.moved_down(after) && act == Action::Nothing
            } else if c == 'c' || c == 'C' {
                act == Action::CopyPass && after == self
            } else if c == 'x' || c == 'X' {
                act == Action::ClearClipboard && after == self
            } else {
                act == Action::Nothing && after == self
            },
            KeyInput::Other => act == Action::Nothing && after == self,
        }
    }

    /// The selection moved up by one, unless at the top.
    pub open spec fn moved_up(self, after: App) -> bool {
        &&& after.selected == if self.selected > 0 {
            (self.selected - 1) as usize
        } else {
            self.selected
        }
        &&& after.same_but_selected(self)
    }

    /// The selection moved down by one, unless at the last account (or past
    /// it).
    pub open spec fn moved_down(self, after: App) -> bool {
        &&& after.selected == if self.selected < self.accounts@.len() - 1 {
            (self.selected + 1) as usize
        } else {
            self.selected
        }
        &&& after.same_but_selected(self)
    }

    /// Everything but the selection is as in `other`.
    pub open spec fn same_but_selected(self, other: App) -> bool {
        &&& self.pass_input == other.pass_input
        &&& self.clean_input == other.clean_input
        &&& self.unlocked == other.unlocked
        &&& self.current_screen == other.current_screen
        &&& self.accounts == other.accounts
        &&& self.active_account == other.active_account
        &&& self.pass_copied == other.pass_copied
        &&& self.crypto_key == other.crypto_key
    }

    /// A new application on the login screen, with nothing typed, no
    /// accounts and no session key.
    pub fn new() -> (app: App)
        ensures
            app.pass_input@ == Seq::<char>::empty(),
            app.clean_input@ == Seq::<char>::empty(),
            app.crypto_key@ == Seq::<char>::empty(),
            !app.unlocked,
            app.current_screen == CurrentScreen::Login,
            app.accounts@.len() == 0,
            app.selected == 0,
            app.active_account is None,
            !app.pass_copied,
    {
        App {
            pass_input: String::new(),
            clean_input: String::new(),
            crypto_key: String::new(),
            unlocked: false,
            current_screen: CurrentScreen::Login,
            accounts: Vec::new(),
            selected: 0,
            active_account: None,
            pass_copied: false,
        }
    }

    /// Replaces the list of accounts.
    pub fn fetch_items(&mut self, accounts: Vec<Account>)
        ensures
            final(self).accounts == accounts,
            final(self).pass_input == old(self).pass_input,
            final(self).clean_input == old(self).clean_input,
            final(self).unlocked == old(self).unlocked,
            final(self).current_screen == old(self).current_screen,
            final(self).selected == old(self).selected,
            final(self).active_account == old(self).active_account,
            final(self).pass_copied == old(self).pass_copied,
            final(self).crypto_key == old(self).crypto_key,
    {
        self.accounts = accounts;
    }

    /// Opens an account in place: its secrets are decrypted under
    /// `master_pass`, and an empty password becomes `"Empty pass"`.
    fn decrypt_account(account: &mut Account, master_pass: &[u8])
        requires
            opens(*old(account), master_pass@),
        ensures
            is_opened(*final(account), *old(account), master_pass@),
    {
        if account.user.len() > 0 {
            match decrypt(account.user.as_slice(), master_pass) {
                Ok(d) => {
                    account.user = d;
                },
                Err(_) => {},
            }
        }
        if account.pass.len() > 0 {
            match decrypt(account.pass.as_slice(), master_pass) {
                Ok(d) => {
                    account.pass = d;
                },
                Err(_) => {},
            }
        } else {
            account.pass = slice_to_vec("Empty pass".as_bytes());
        }
    }

    /// Opens the account at `index` for display, decrypting its secrets
    /// under the session key.
    pub fn update_active_account(&mut self, index: usize)
        requires
            index < old(self).accounts@.len(),
            opens(old(self).accounts@[index as int], old(self).key_bytes()),
        ensures
            old(self).opened_at(*final(self), index),
    {
        let mut acc = self.accounts[index].clone();
        App::decrypt_account(&mut acc, self.crypto_key.as_str().as_bytes());
        self.active_account = Some(acc);
    }

    /// Opens the account at `index` where it exists and its secrets decrypt;
    /// otherwise says why not and leaves the state as it was.
    pub fn select_account(&mut self, index: usize) -> (r: Result<(), AccountError>)
        ensures
            r == old(self).select_result(index),
            r is Ok ==> old(self).opened_at(*final(self), index),
            r is Err ==> *final(self) == *old(self),
    {
        if index >= self.accounts.len() {
            return Err(AccountError::NoSuchAccount);
        }
        let key: &[u8] = self.crypto_key.as_str().as_bytes();
        if self.accounts[index].user.len() > 0 {
            if decrypt(self.accounts[index].user.as_slice(), key).is_err() {
                return Err(AccountError::DecryptUsername);
            }
        }
        if self.accounts[index].pass.len() > 0 {
            if decrypt(self.accounts[index].pass.as_slice(), key).is_err() {
                return Err(AccountError::DecryptPassword);
            }
        }
        self.update_active_account(index);
        Ok(())
    }

    /// Completes an unlock with the session key `crypto_key`: the typed
    /// password is wiped, the vault counts as unlocked and the main screen
    /// shows.
    pub fn apply_unlock(&mut self, crypto_key: String)
        ensures
            final(self).pass_input@ == Seq::<char>::empty(),
            final(self).unlocked,
            final(self).crypto_key == crypto_key,
            final(self).current_screen == CurrentScreen::Main,
            final(self).clean_input == old(self).clean_input,
            final(self).accounts == old(self).accounts,
            final(self).selected == old(self).selected,
            final(self).active_account == old(self).active_account,
            final(self).pass_copied == old(self).pass_copied,
    {
        wipe(&mut self.pass_input);
        self.unlocked = true;
        self.crypto_key = crypto_key;
        self.current_screen = CurrentScreen::Main;
    }

    /// Completes an unlock with a fresh random session key of sixteen ASCII
    /// letters and digits.
    pub fn complete_unlock(&mut self)
        ensures
            final(self).pass_input@ == Seq::<char>::empty(),
            final(self).unlocked,
            final(self).crypto_key@.len() == 16,
            forall|i: int|
                0 <= i < 16 ==> secrets::is_ascii_alphanumeric(#[trigger] final(self).crypto_key@[i]),
            final(self).current_screen == CurrentScreen::Main,
            final(self).clean_input == old(self).clean_input,
            final(self).accounts == old(self).accounts,
            final(self).selected == old(self).selected,
            final(self).active_account == old(self).active_account,
            final(self).pass_copied == old(self).pass_copied,
    {
        let key = random_alphanumeric(16);
        self.apply_unlock(key);
    }

    /// The password of the account on display, to go on the clipboard; marks
    /// it as copied. `None`, with nothing changed, where no account is on
    /// display.
    pub fn copy_pass_text(&mut self) -> (r: Option<String>)
        ensures
            old(self).active_account is None ==> r is None && *final(self) == *old(self),
            old(self).active_account matches Some(acc) ==> {
                &&& r matches Some(t) && t@ == text_or(acc.pass@, "Error retrieving password"@)
                &&& final(self).pass_copied
                &&& final(self).same_but_copied(*old(self))
            },
    {
        match &self.active_account {
            Some(acc) => {
                let text = acc.clone().get_pass();
                self.pass_copied = true;
                Some(text)
            },
            None => None,
        }
    }

    /// Everything but the copied flag is as in `other`.
    pub open spec fn same_but_copied(self, other: App) -> bool {
        &&& self.pass_input == other.pass_input
        &&& self.clean_input == other.clean_input
        &&& self.unlocked == other.unlocked
        &&& self.current_screen == other.current_screen
        &&& self.accounts == other.accounts
        &&& self.selected == other.selected
        &&& self.active_account == other.active_account
        &&& self.crypto_key == other.crypto_key
    }

    /// Records that the clipboard was cleared.
    pub fn clipboard_cleared(&mut self)
        ensures
            !final(self).pass_copied,
            final(self).same_but_copied(*old(self)),
    {
        self.pass_copied = false;
    }

    /// The key moves the selection down (Down, `j` or `J`).
    pub open spec fn is_down_key(key: KeyInput) -> bool {
        key == KeyInput::Down || key == KeyInput::Char('j') || key == KeyInput::Char('J')
    }

    /// The key press can be handled: moving down needs an account list
    /// that is not empty on the main screen (the bound `len - 1` does not
    /// exist otherwise).
    pub open spec fn key_allowed(self, key: KeyInput) -> bool {
        !(self.current_screen == CurrentScreen::Main && App::is_down_key(key)
            && self.accounts@.len() == 0)
    }

    /// Whether `handle_key` can take `key` now.
    pub fn accepts_key(&self, key: KeyInput) -> (r: bool)
        ensures
            r == self.key_allowed(key),
    {
        let down = match key {
            KeyInput::Down => true,
            KeyInput::Char(c) => c == 'j' || c == 'J',
            _ => false,
        };
        !(self.current_screen == CurrentScreen::Main && down && self.accounts.len() == 0)
    }

    /// Handles one key press on the current screen.
    pub fn handle_key(&mut self, key: KeyInput) -> (act: Action)
        requires
            old(self).key_allowed(key),
        ensures
            old(self).current_screen == CurrentScreen::Login ==> old(self).login_step(
                *final(self),
                key,
                act,
            ),
            old(self).current_screen == CurrentScreen::Main ==> old(self).main_step(
                *final(self),
                key,
                act,
            ),
    {
        match self.current_screen {
            CurrentScreen::Login => self.handle_login_key(key),
            CurrentScreen::Main => self.handle_main_key(key),
        }
    }

    /// A key press on the login screen.
    fn handle_login_key(&mut self, key: KeyInput) -> (act: Action)
        ensures
            old(self).login_step(*final(self), key, act),
    {
        match key {
            KeyInput::Backspace => {
                pop_char(&mut self.pass_input);
                pop_char(&mut self.clean_input);
                Action::Nothing
            },
            KeyInput::Char(c) => {
                push_char(&mut self.pass_input, c);
                push_char(&mut self.clean_input, '\u{2022}');
                Action::Nothing
            },
            KeyInput::Enter => Action::Unlock,
            _ => Action::Nothing,
        }
    }

    /// A key press on the main screen.
    fn handle_main_key(&mut self, key: KeyInput) -> (act: Action)
        requires
            App::is_down_key(key) ==> old(self).accounts@.len() > 0,
        ensures
            old(self).main_step(*final(self), key, act),
    {
        match key {
            KeyInput::Up => {
                self.move_up();
                Action::Nothing
            },
            KeyInput::Down => {
                self.move_down();
                Action::Nothing
            },
            KeyInput::Enter => {
                let index = self.selected;
                match self.select_account(index) {
                    Ok(()) => Action::Nothing,
                    Err(e) => Action::Failed(e),
                }
            },
            KeyInput::Backspace => {
                self.active_account = None;
                Action::Nothing
            },
            KeyInput::Char(c) => {
                if c == 'q' || c == 'Q' {
                    Action::Quit { clear_clipboard: self.pass_copied }
                } else if c == 'k' || c == 'K' {
                    self.move_up();
                    Action::Nothing
                } else if c == 'j' || c == 'J' {
                    self.move_down();
                    Action::Nothing
                } else if c == 'c' || c == 'C' {
                    Action::CopyPass
                } else if c == 'x' || c == 'X' {
                    Action::ClearClipboard
                } else {
                    Action::Nothing
                }
            },
            KeyInput::Other => Action::Nothing,
        }
    }

    /// Moves the selection up by one, unless at the top.
    fn move_up(&mut self)
        ensures
            old(self).moved_up(*final(self)),
    {
        if self.selected > 0 {
            self.selected -= 1;
        }
    }

    /// Moves the selection down by one, unless at the last account.
    fn move_down(&mut self)
        requires
            old(self).accounts@.len() > 0,
        ensures
            old(self).moved_down(*final(self)),
    {
        if self.selected < self.accounts.len() - 1 {
            self.selected += 1;
        }
    }
}

// ---------------------------------------------------------------------------
// What the screen shows
// ---------------------------------------------------------------------------

impl App {
    /// The rows of the account list: each account's name, and whether it is
    /// the selected one (drawn highlighted).
    pub fn account_rows(&self) -> (rows: Vec<(String, bool)>)
        ensures
            rows@.len() == self.accounts@.len(),
            forall|i: int|
                0 <= i < rows@.len() ==> (#[trigger] rows@[i]).0@ == self.accounts@[i].name@
                    && rows@[i].1 == (i == self.selected),
    {
        let mut rows: Vec<(String, bool)> = Vec::new();
        for i in 0..self.accounts.len()
            invariant
                rows@.len() == i,
                forall|j: int|
                    0 <= j < i ==> (#[trigger] rows@[j]).0@ == self.accounts@[j].name@ && rows@[j].1
                        == (j == self.selected),
        {
            rows.push((self.accounts[i].name.clone(), i == self.selected));
        }
        rows
    }

    /// The lines of the account pane: the name, username and password of the
    /// account on display, or a note that there is none.
    pub fn detail_lines(&self) -> (lines: Vec<String>)
        ensures
            self.active_account is None ==> lines@.len() == 1 && lines@[0]@
                == "No active account to display"@,
            self.active_account matches Some(acc) ==> {
                &&& lines@.len() == 3
                &&& lines@[0]@ == "Name: "@ + acc.name@
                &&& lines@[1]@ == "Username: "@ + text_or(acc.user@, "Error retrieving username"@)
                &&& lines@[2]@ == "Password: "@ + text_or(acc.pass@, "Error retrieving password"@)
            },
    {
        let mut lines: Vec<String> = Vec::new();
        match &self.active_account {
            Some(acc) => {
                let mut name = String::from_str("Name: ");
                name.append(acc.name.as_str());
                let mut user = String::from_str("Username: ");
                user.append(acc.clone().get_user().as_str());
                let mut pass = String::from_str("Password: ");
                pass.append(acc.clone().get_pass().as_str());
                lines.push(name);
                lines.push(user);
                lines.push(pass);
            },
            None => {
                lines.push(String::from_str("No active account to display"));
            },
        }
        lines
    }
}

// ---------------------------------------------------------------------------
// Laws
// ---------------------------------------------------------------------------

/// The texts of a byte sequence that is the UTF-8 encoding of a text: the
/// text itself.
proof fn lemma_text_of_utf8(s: Seq<char>, fallback: Seq<char>)
    ensures
        text_or(utf8(s), fallback) == s,
{
    vstd::utf8::encode_utf8_valid_utf8(s);
    vstd::utf8::encode_utf8_decode_utf8(s);
}

/// An account that `parse_items` read under a key opens under the same key,
/// and then shows the username and password it was read with (an empty
/// password as `"Empty pass"`).
pub proof fn lemma_sealed_account_opens(acc: Account, key: Seq<u8>, e: Entry)
    requires
        account_holds(acc, key, e),
    ensures
        opens(acc, key),
        acc.id@ == e.id,
        acc.name@ == e.name,
        text_or(opened_user(acc.user@, key), "Error retrieving username"@) == e.user,
        text_or(opened_pass(acc.pass@, key), "Error retrieving password"@) == if e.pass.len()
            == 0 {
            "Empty pass"@
        } else {
            e.pass
        },
{
    reveal(sealed);
    lemma_text_of_utf8(e.user, "Error retrieving username"@);
    lemma_text_of_utf8(e.pass, "Error retrieving password"@);
    lemma_text_of_utf8("Empty pass"@, "Error retrieving password"@);
    if e.user.len() == 0 {
        assert(e.user =~= Seq::<char>::empty());
        assert(utf8(e.user) =~= Seq::<u8>::empty()) by {
            reveal_with_fuel(vstd::utf8::encode_utf8, 2);
        }
        assert(acc.user@ =~= utf8(e.user));
    }
}

/// Opening an account that `parse_items` read under the session key
/// succeeds, and the account on display shows the username and password
/// that the listing held.
pub proof fn lemma_opening_shows_entry(app: App, after: App, index: usize, e: Entry)
    requires
        index < app.accounts@.len(),
        account_holds(app.accounts@[index as int], app.key_bytes(), e),
        app.opened_at(after, index),
    ensures
        app.select_result(index) is Ok,
        after.active_account matches Some(shown) && {
            &&& shown.name@ == e.name
            &&& text_or(shown.user@, "Error retrieving username"@) == e.user
            &&& text_or(shown.pass@, "Error retrieving password"@) == if e.pass.len() == 0 {
                "Empty pass"@
            } else {
                e.pass
            }
        },
{
    lemma_sealed_account_opens(app.accounts@[index as int], app.key_bytes(), e);
}

/// The keys of the main screen: Up, `k` or `K` move the selection one up
/// and Down, `j` or `J` one down, staying within the list; `q` or `Q` quit,
/// clearing the clipboard exactly when a password was copied; Backspace
/// closes the account on display; `c` or `C` ask to copy the password and
/// `x` or `X` to clear the clipboard. None of them changes the list.
pub proof fn lemma_main_keys(app: App, after: App, key: KeyInput, act: Action)
    requires
        app.main_step(after, key, act),
    ensures
        after.accounts == app.accounts,
        (key == KeyInput::Up || key == KeyInput::Char('k') || key == KeyInput::Char('K'))
            ==> after.selected == (if app.selected >= 1 {
            app.selected - 1
        } else {
            app.selected as int
        }) && act == Action::Nothing,
        (key == KeyInput::Down || key == KeyInput::Char('j') || key == KeyInput::Char('J'))
            ==> after.selected == (if app.selected + 1 < app.accounts@.len() {
            app.selected + 1
        } else {
            app.selected as int
        }) && act == Action::Nothing,
        (key == KeyInput::Char('q') || key == KeyInput::Char('Q')) ==> act == (Action::Quit {
            clear_clipboard: app.pass_copied,
        }) && after == app,
        key == KeyInput::Backspace ==> after.active_account is None && after.selected
            == app.selected,
        (key == KeyInput::Char('c') || key == KeyInput::Char('C')) ==> act == Action::CopyPass
            && after == app,
        (key == KeyInput::Char('x') || key == KeyInput::Char('X')) ==> act
            == Action::ClearClipboard && after == app,
{
    assert(app.accounts@.len() == app.accounts.len());
}

/// How one line changes the reading of the listing: `{` starts an object,
/// `}` ends it and adds the entry of the lines gathered, any other line read
/// inside an object is gathered as it is (and outside one is passed over).
pub proof fn lemma_scan_line(lines: Seq<Seq<char>>, l: Seq<char>)
    ensures
        l == "{"@ ==> scan(lines.push(l)).reading && scan(lines.push(l)).current == scan(
            lines,
        ).current && scan(lines.push(l)).entries == scan(lines).entries,
        l == "}"@ ==> !scan(lines.push(l)).reading && scan(lines.push(l)).current.len() == 0
            && scan(lines.push(l)).entries == scan(lines).entries.push(entry_of(scan(lines).current)),
        l != "{"@ && l != "}"@ && scan(lines).reading ==> scan(lines.push(l)).reading && scan(
            lines.push(l),
        ).current == scan(lines).current.push(l) && scan(lines.push(l)).entries == scan(
            lines,
        ).entries,
        l != "{"@ && l != "}"@ && !scan(lines).reading ==> scan(lines.push(l)) == scan(lines),
{
    reveal_strlit("{");
    reveal_strlit("}");
    assert("{"@ != "}"@) by {
        assert("{"@[0] != "}"@[0]);
    }
    let ls = lines.push(l);
    lemma_scan_next(ls, lines.len() as int);
    assert(ls.take(lines.len() as int) =~= lines);
    assert(ls.take(lines.len() as int + 1) =~= ls);
}

/// Typing a character on the login screen appends exactly that character,
/// whatever it is, to the password, and one bullet to what is shown;
/// Backspace takes the last character off both, Enter asks to unlock and
/// leaves the input, and nothing else happens.
pub proof fn lemma_login_typing(app: App, after: App, key: KeyInput, act: Action)
    requires
        app.login_step(after, key, act),
    ensures
        key matches KeyInput::Char(c) ==> after.pass_input@ == app.pass_input@.push(c)
            && after.clean_input@ == app.clean_input@.push('\u{2022}') && act == Action::Nothing,
        key == KeyInput::Backspace && app.pass_input@.len() > 0 ==> after.pass_input@
            == app.pass_input@.take(app.pass_input@.len() - 1) && act == Action::Nothing,
        key == KeyInput::Enter ==> after.pass_input == app.pass_input && act == Action::Unlock,
        after.accounts == app.accounts,
        after.current_screen == app.current_screen,
        after.crypto_key == app.crypto_key,
{
    if key == KeyInput::Backspace && app.pass_input@.len() > 0 {
        assert(app.pass_input@.drop_last() =~= app.pass_input@.take(app.pass_input@.len() - 1));
    }
}

/// A quoted value of a listing line, `key: "value"` with or without a
/// trailing comma, is read as the text between the quotes, inner spaces
/// kept, whether the text after the `:` is trimmed first or not.
pub proof fn lemma_cleaned_quoted(key: Seq<char>, value: Seq<char>, comma: bool)
    requires
        crate::lacks(key, ':'),
        crate::lacks(value, ':'),
        text::is_trimmed(value),
    ensures
        has_field(crate::quoted_line(key, value, comma)),
        field_text(crate::quoted_line(key, value, comma)) == seq![' ', '"'] + value + seq!['"']
            + if comma {
            seq![',']
        } else {
            Seq::<char>::empty()
        },
        clean_ok(field_text(crate::quoted_line(key, value, comma))),
        clean_ok(text::trim(field_text(crate::quoted_line(key, value, comma)))),
        cleaned(field_text(crate::quoted_line(key, value, comma))) == value,
        cleaned(text::trim(field_text(crate::quoted_line(key, value, comma)))) == value,
{
    crate::lemma_quoted_line_parts(key, value, comma);
    let tail = if comma {
        seq![',']
    } else {
        Seq::<char>::empty()
    };
    let d = seq!['"'] + value + seq!['"'] + tail;
    assert(d[0] == '"');
    assert(d.last() == if comma {
        ','
    } else {
        '"'
    });
    text::lemma_trim_trimmed(d);
    text::lemma_trim_trimmed(value);
    assert(d.take(1) =~= seq!['"']);
    if comma {
        assert(d.skip(d.len() - 1) =~= seq![',']);
        assert(d.drop_first() =~= value + seq!['"', ',']);
        assert(d.drop_first().skip(value.len() as int) =~= seq!['"', ',']);
        assert(text::strip_suffix(d.drop_first(), seq!['"', ',']) =~= value);
    } else {
        assert(d.skip(d.len() - 1) =~= seq!['"']);
        assert(!text::ends_with(d, seq![',']));
        assert(d.drop_first() =~= value + seq!['"']);
        assert(d.drop_first().skip(value.len() as int) =~= seq!['"']);
        assert(text::strip_suffix(d.drop_first(), seq!['"']) =~= value);
    }
}

/// An object whose first four lines are quoted `key: "value"` lines gives
/// the entry of those four values, in that order (id, name, username,
/// password), each the whole text between its quotes.
pub proof fn lemma_entry_of_quoted(
    cur: Seq<Seq<char>>,
    keys: Seq<Seq<char>>,
    values: Seq<Seq<char>>,
    commas: Seq<bool>,
)
    requires
        cur.len() >= 4,
        keys.len() == 4,
        values.len() == 4,
        commas.len() == 4,
        forall|i: int|
            0 <= i < 4 ==> crate::lacks(#[trigger] keys[i], ':') && crate::lacks(values[i], ':')
                && text::is_trimmed(values[i]) && cur[i] == crate::quoted_line(
                keys[i],
                values[i],
                commas[i],
            ),
    ensures
        entry_ok(cur),
        entry_of(cur) == (Entry { id: values[0], name: values[1], user: values[2], pass: values[3] }),
{
    assert(crate::lacks(keys[0], ':'));
    assert(crate::lacks(keys[1], ':'));
    assert(crate::lacks(keys[2], ':'));
    assert(crate::lacks(keys[3], ':'));
    lemma_cleaned_quoted(keys[0], values[0], commas[0]);
    lemma_cleaned_quoted(keys[1], values[1], commas[1]);
    lemma_cleaned_quoted(keys[2], values[2], commas[2]);
    lemma_cleaned_quoted(keys[3], values[3], commas[3]);
}

/// Typing on the login screen keeps the shown input one bullet per typed
/// character.
pub proof fn lemma_login_keeps_mask(app: App, after: App, key: KeyInput, act: Action)
    requires
        masked(app.clean_input@, app.pass_input@),
        app.login_step(after, key, act),
    ensures
        masked(after.clean_input@, after.pass_input@),
{
    match key {
        KeyInput::Backspace => {
            assert forall|i: int| 0 <= i < after.clean_input@.len() implies after.clean_input@[i]
                == bullet() by {
                assert(after.clean_input@[i] == app.clean_input@[i]);
            }
        },
        KeyInput::Char(c) => {
            assert forall|i: int| 0 <= i < after.clean_input@.len() implies after.clean_input@[i]
                == bullet() by {
                if i < app.clean_input@.len() {
                    assert(after.clean_input@[i] == app.clean_input@[i]);
                }
            }
        },
        _ => {},
    }
}

/// Key presses on the main screen keep the selection on an account (or at
/// the top of an empty list), and never change the list.
pub proof fn lemma_main_keeps_selection(app: App, after: App, key: KeyInput, act: Action)
    requires
        app.selected < app.accounts@.len() || app.selected == 0,
        app.key_allowed(key),
        app.main_step(after, key, act),
    ensures
        after.accounts == app.accounts,
        after.selected < after.accounts@.len() || after.selected == 0,
{
}

} // verus!
