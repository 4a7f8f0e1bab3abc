//! The configuration directory's files: their names, the sealing of the
//! documents stored in them, and the reading of the registry document,
//! including the migration of its older single-name form.

use vstd::prelude::*;
use vstd::string::*;
use vstd::utf8::*;

use crate::crypto::{
    AegCrypto, CryptoError, MAX_PLAINTEXT, base64_of, is_base64_text, is_key_text, sealed_text,
    utf8_text,
};
use crate::registry::{CollectionLock, DEFAULT_COLLECTION, names_of};

verus! {

broadcast use encode_utf8_valid_utf8, encode_utf8_decode_utf8, decode_utf8_encode_utf8;

pub const RUNTIME_NAME: &'static str = "Aegisr";

pub const ENGINE_NAME: &'static str = "Aegisr Engine (Dusk)";

pub const ENGINE_VERSION: &'static str = "1.0.2-beta";

/// The configuration directory, under the user's home.
pub const STORE_DIR: &'static str = ".aegisr";

/// The registry document.
pub const STORE_COLLECTION: &'static str = "collection.lock";

/// The engine settings file, created empty.
pub const STORE_CONFIG_AEG: &'static str = "config.aeg";

/// The authorization key, as base64 text.
pub const STORE_AUTHORIZATION_KEY: &'static str = "AUTHORIZATION_KEY";

/// The expiring cache's snapshot, unencrypted.
pub const STORE_TTL_CACHE: &'static str = "ttl_cache.json";

/// The characters of Unicode's `White_Space` property, which `str::trim` and
/// `char::is_whitespace` go by.
pub open spec fn is_white_space(c: char) -> bool {
    let u = c as u32;
    ||| 0x09 <= u <= 0x0d
    ||| u == 0x20
    ||| u == 0x85
    ||| u == 0xa0
    ||| u == 0x1680
    ||| 0x2000 <= u <= 0x200a
    ||| u == 0x2028
    ||| u == 0x2029
    ||| u == 0x202f
    ||| u == 0x205f
    ||| u == 0x3000
}

/// Whether `c` is removed from the ends: double quotes, or else whitespace.
pub open spec fn strips(quotes: bool, c: char) -> bool {
    if quotes {
        c == '"'
    } else {
        is_white_space(c)
    }
}

/// `stripped`, with the part kept being `s[i..j]`.
pub open spec fn stripped_at(s: Seq<char>, r: Seq<char>, quotes: bool, i: int, j: int) -> bool {
    &&& 0 <= i <= j <= s.len()
    &&& r == s.subrange(i, j)
    &&& forall|k: int| 0 <= k < i ==> strips(quotes, #[trigger] s[k])
    &&& forall|k: int| j <= k < s.len() ==> strips(quotes, #[trigger] s[k])
    &&& i < j ==> !strips(quotes, s[i]) && !strips(quotes, s[j - 1])
    &&& i == j ==> j == s.len()
}

/// Whether `r` is `s` with every leading and trailing character that
/// `strips(quotes, _)` holds of removed.
pub open spec fn stripped(s: Seq<char>, r: Seq<char>, quotes: bool) -> bool {
    exists|i: int, j: int| stripped_at(s, r, quotes, i, j)
}

/// `s` without leading and trailing whitespace, as `str::trim` gives it.
pub open spec fn trimmed(s: Seq<char>) -> Seq<char> {
    choose|r: Seq<char>| stripped(s, r, false)
}

/// `s` without leading and trailing double quotes.
pub open spec fn unquoted(s: Seq<char>) -> Seq<char> {
    choose|r: Seq<char>| stripped(s, r, true)
}

proof fn lemma_stripped_unique(s: Seq<char>, r1: Seq<char>, r2: Seq<char>, quotes: bool)
    requires
        stripped(s, r1, quotes),
        stripped(s, r2, quotes),
    ensures
        r1 == r2,
{
    let (i1, j1) = choose|i: int, j: int| stripped_at(s, r1, quotes, i, j);
    let (i2, j2) = choose|i: int, j: int| stripped_at(s, r2, quotes, i, j);
    if i1 < i2 {
        assert(strips(quotes, s[i1]));
    } else if i2 < i1 {
        assert(strips(quotes, s[i2]));
    }
    if i1 < j1 && i2 < j2 {
        if j1 < j2 {
            assert(strips(quotes, s[j2 - 1]));
        } else if j2 < j1 {
            assert(strips(quotes, s[j1 - 1]));
        }
    }
}

/// Whether `c` is whitespace in the sense of `is_white_space`.
fn is_white_space_char(c: char) -> (r: bool)
    ensures
        r == is_white_space(c),
{
    let u = c as u32;
    (0x09 <= u && u <= 0x0d) || u == 0x20 || u == 0x85 || u == 0xa0 || u == 0x1680 || (0x2000
        <= u && u <= 0x200a) || u == 0x2028 || u == 0x2029 || u == 0x202f || u == 0x205f || u
        == 0x3000
}

fn strips_char(quotes: bool, c: char) -> (r: bool)
    ensures
        r == strips(quotes, c),
{
    if quotes {
        c == '"'
    } else {
        is_white_space_char(c)
    }
}

/// `s` without the leading and trailing characters that `strips(quotes, _)`
/// holds of.
fn strip_ends(s: &str, quotes: bool) -> (r: String)
    ensures
        quotes ==> r@ == unquoted(s@),
        !quotes ==> r@ == trimmed(s@),
{
    let n = s.unicode_len();
    let mut i: usize = 0;
    while i < n && strips_char(quotes, s.get_char(i))
        invariant
            n == s@.len(),
            i <= n,
            forall|k: int| 0 <= k < i ==> strips(quotes, #[trigger] s@[k]),
        decreases n - i,
    {
        i = i + 1;
    }
    let mut j: usize = n;
    while j > i && strips_char(quotes, s.get_char(j - 1))
        invariant
            n == s@.len(),
            i <= j <= n,
            forall|k: int| 0 <= k < i ==> strips(quotes, #[trigger] s@[k]),
            forall|k: int| j <= k < n ==> strips(quotes, #[trigger] s@[k]),
            i < n ==> !strips(quotes, s@[i as int]),
        decreases j - i,
    {
        j = j - 1;
    }
    let r = s.substring_char(i, j).to_owned();
    assert(stripped_at(s@, r@, quotes, i as int, j as int));
    assert(stripped(s@, r@, quotes));
    proof {
        if quotes {
            lemma_stripped_unique(s@, r@, unquoted(s@), quotes);
        } else {
            lemma_stripped_unique(s@, r@, trimmed(s@), quotes);
        }
    }
    r
}

/// Whether `t` is `doc` sealed under the key that `key_text` encodes.
pub open spec fn sealed_document(key_text: Seq<char>, doc: Seq<char>, t: Seq<char>) -> bool {
    exists|k: Seq<u8>| k.len() == 32 && base64_of(k) == key_text && t == sealed_text(k, encode_utf8(doc))
}

/// A registry document as read, and whether it must be written back (in its
/// structured form) because it was migrated.
pub struct LockRead {
    pub lock: CollectionLock,
    pub migrated: bool,
}

/// What initializing the configuration directory has to do.
pub struct InitPlan {
    /// Delete the directory first.
    pub remove_dir: bool,
    /// Generate and write a new authorization key (else read the existing one).
    pub generate_key: bool,
    /// Write the default registry document.
    pub write_default_lock: bool,
}

/// The configuration directory's files.
pub struct AegFileSystem;

impl AegFileSystem {
    /// The file name of a collection's store: `collection_<name>.aekv`.
    pub fn engine_file_name(collection: &str) -> (r: String)
        ensures
            r@ == "collection_"@ + collection@ + ".aekv"@,
    {
        let mut r = "collection_".to_owned();
        r.append(collection);
        r.append(".aekv");
        r
    }

    /// The steps of initialization, from what is on disk. With `overwrite` the
    /// directory is deleted, so everything is made anew; otherwise only what
    /// is missing is made, and an existing key is kept.
    pub fn initialization_plan(overwrite: bool, dir_exists: bool, key_exists: bool, lock_exists: bool) -> (r:
        InitPlan)
        ensures
            r.remove_dir == (overwrite && dir_exists),
            r.generate_key == (r.remove_dir || !key_exists),
            r.write_default_lock == (r.remove_dir || !lock_exists),
    {
        let remove_dir = overwrite && dir_exists;
        InitPlan {
            remove_dir,
            generate_key: remove_dir || !key_exists,
            write_default_lock: remove_dir || !lock_exists,
        }
    }

    /// Whether the configuration has to be initialized before use: when the
    /// settings file, the key or the registry document is missing.
    pub fn needs_initialization(config_exists: bool, key_exists: bool, lock_exists: bool) -> (r: bool)
        ensures
            r == !(config_exists && key_exists && lock_exists),
    {
        !config_exists || !key_exists || !lock_exists
    }

    /// The registry document of a fresh configuration.
    pub fn default_lock() -> (r: CollectionLock)
        ensures
            r.active@ == DEFAULT_COLLECTION@,
            names_of(r.collections@) == seq![DEFAULT_COLLECTION@],
    {
        let r = CollectionLock {
            active: DEFAULT_COLLECTION.to_owned(),
            collections: vec![DEFAULT_COLLECTION.to_owned()],
        };
        assert(names_of(r.collections@) =~= seq![DEFAULT_COLLECTION@]);
        r
    }

    /// `s` without its leading and trailing double quotes.
    pub fn strip_quotes(s: &str) -> (r: String)
        ensures
            r@ == unquoted(s@),
    {
        strip_ends(s, true)
    }

    /// `s` without leading and trailing whitespace.
    pub fn trim_whitespace(s: &str) -> (r: String)
        ensures
            r@ == trimmed(s@),
    {
        strip_ends(s, false)
    }

    /// Seals a document under the key that `auth_key` encodes, for writing.
    pub fn seal_document(data: &str, auth_key: &str) -> (r: Result<String, CryptoError>)
        ensures
            r is Ok <==> is_key_text(auth_key@) && encode_utf8(data@).len() <= MAX_PLAINTEXT,
            r matches Ok(t) ==> sealed_document(auth_key@, data@, t@),
            r == Err::<String, CryptoError>(CryptoError::InvalidEncoding) <==> !is_base64_text(
                auth_key@,
            ),
            r == Err::<String, CryptoError>(CryptoError::InvalidKeyLength) <==> is_base64_text(
                auth_key@,
            ) && !is_key_text(auth_key@),
            r == Err::<String, CryptoError>(CryptoError::PayloadTooLarge) <==> is_key_text(
                auth_key@,
            ) && encode_utf8(data@).len() > MAX_PLAINTEXT,
    {
        let key = match AegCrypto::decode_authorization_key(auth_key) {
            Ok(k) => k,
            Err(e) => {
                return Err(e);
            },
        };
        let bytes = data.as_bytes();
        match AegCrypto::encrypt(bytes, key.as_slice()) {
            Ok(t) => {
                assert(t@ == sealed_text(key@, encode_utf8(data@)));
                Ok(t)
            },
            Err(e) => Err(e),
        }
    }

    /// Opens a document read from disk, sealed under the key that `auth_key`
    /// encodes. What `seal_document` gave under the same key text opens to
    /// the document it sealed.
    pub fn open_document(content: &str, auth_key: &str) -> (r: Result<String, CryptoError>)
        ensures
            forall|d: Seq<char>|
                sealed_document(auth_key@, d, content@) && encode_utf8(d).len() <= MAX_PLAINTEXT ==> (
                r is Ok && r->Ok_0@ == d),
            r matches Ok(d) ==> (encode_utf8(d@).len() <= MAX_PLAINTEXT ==> sealed_document(
                auth_key@,
                d@,
                content@,
            )),
            !is_base64_text(auth_key@) ==> r == Err::<String, CryptoError>(
                CryptoError::InvalidEncoding,
            ),
            is_base64_text(auth_key@) && !is_key_text(auth_key@) ==> r == Err::<String, CryptoError>(
                CryptoError::InvalidKeyLength,
            ),
            is_key_text(auth_key@) && !is_base64_text(content@) ==> r == Err::<String, CryptoError>(
                CryptoError::InvalidEncoding,
            ),
    {
        let key = match AegCrypto::decode_authorization_key(auth_key) {
            Ok(k) => k,
            Err(e) => {
                assert forall|d: Seq<char>|
                    !sealed_document(auth_key@, d, content@) by {
                    if sealed_document(auth_key@, d, content@) {
                        let k = choose|k: Seq<u8>|
                            k.len() == 32 && base64_of(k) == auth_key@ && content@ == sealed_text(
                                k,
                                encode_utf8(d),
                            );
                        assert(is_key_text(auth_key@));
                    }
                }
                return Err(e);
            },
        };
        match AegCrypto::decrypt(content, key.as_slice()) {
            Ok(p) => {
                let ghost pb = p@;
                match utf8_text(p) {
                    Some(s) => {
                        assert forall|d: Seq<char>|
                            sealed_document(auth_key@, d, content@) && encode_utf8(d).len()
                                <= MAX_PLAINTEXT implies s@ == d by {
                            let k = choose|k: Seq<u8>|
                                k.len() == 32 && base64_of(k) == auth_key@ && content@ == sealed_text(
                                    k,
                                    encode_utf8(d),
                                );
                            assert(k == key@);
                            assert(pb == encode_utf8(d));
                        }
                        assert(encode_utf8(s@).len() <= MAX_PLAINTEXT ==> sealed_document(
                            auth_key@,
                            s@,
                            content@,
                        )) by {
                            if encode_utf8(s@).len() <= MAX_PLAINTEXT {
                                assert(decode_utf8(pb) == s@);
                                assert(encode_utf8(decode_utf8(pb)) == pb);
                            }
                        }
                        Ok(s)
                    },
                    None => {
                        assert forall|d: Seq<char>|
                            !(sealed_document(auth_key@, d, content@) && encode_utf8(d).len()
                                <= MAX_PLAINTEXT) by {
                            if sealed_document(auth_key@, d, content@) && encode_utf8(d).len()
                                <= MAX_PLAINTEXT {
                                let k = choose|k: Seq<u8>|
                                    k.len() == 32 && base64_of(k) == auth_key@ && content@
                                        == sealed_text(k, encode_utf8(d));
                                assert(k == key@);
                                assert(pb == encode_utf8(d));
                            }
                        }
                        Err(CryptoError::InvalidUtf8)
                    },
                }
            },
            Err(e) => {
                assert forall|d: Seq<char>|
                    !(sealed_document(auth_key@, d, content@) && encode_utf8(d).len()
                        <= MAX_PLAINTEXT) by {
                    if sealed_document(auth_key@, d, content@) && encode_utf8(d).len()
                        <= MAX_PLAINTEXT {
                        let k = choose|k: Seq<u8>|
                            k.len() == 32 && base64_of(k) == auth_key@ && content@ == sealed_text(
                                k,
                                encode_utf8(d),
                            );
                        assert(k == key@);
                    }
                }
                Err(e)
            },
        }
    }

    /// The registry document from the text that the lock file opened to
    /// (empty when there is no file) and what parsing it as a structured
    /// document gave. Blank text gives the default document. Text that does
    /// not parse is the older form, a single collection name, possibly
    /// quoted: it becomes a document with that one collection, active, to be
    /// written back.
    pub fn read_collection_lock_obj(text: &str, parsed: Option<CollectionLock>) -> (r: LockRead)
        ensures
            trimmed(text@).len() == 0 ==> r.lock.active@ == DEFAULT_COLLECTION@ && names_of(
                r.lock.collections@,
            ) == seq![DEFAULT_COLLECTION@] && !r.migrated,
            trimmed(text@).len() != 0 && parsed is Some ==> r.lock == parsed->0 && !r.migrated,
            trimmed(text@).len() != 0 && parsed is None ==> r.lock.active@ == unquoted(trimmed(text@))
                && names_of(r.lock.collections@) == seq![r.lock.active@] && r.migrated,
    {
        let t = Self::trim_whitespace(text);
        if t.as_str().is_empty() {
            return LockRead { lock: Self::default_lock(), migrated: false };
        }
        match parsed {
            Some(lock) => LockRead { lock, migrated: false },
            None => {
                let name = Self::strip_quotes(t.as_str());
                let lock = CollectionLock { active: name.clone(), collections: vec![name] };
                assert(names_of(lock.collections@) =~= seq![lock.active@]);
                LockRead { lock, migrated: true }
            },
        }
    }
}

} // verus!
