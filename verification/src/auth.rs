//! Keys, and the one-time code that links the first client.
use crate::error::{error_of, fault, refused, ApiError, ErrorView};
use crate::model::{maybe_str, MintKeyResponse, PairResponse};
use crate::outside::{
    hex_digit, hyphenated, is_random_id, random_uuid, sha256, sha256_digest, uuid_text,
};
use crate::text::{
    begins_with, chars_of, occurs, same_text, starts_with, strip_prefix, trim, trimmed, upper,
    uppered,
};
use crate::util::{is_timestamp, iso_now, now_epoch};
use vstd::prelude::*;
use vstd::utf8::encode_utf8;

verus! {

/// How long a pairing code can be used.
pub const PAIR_CODE_LIFETIME_SECONDS: i64 = 900;

/// How many random bytes a pairing code is made of, one for each of its characters.
pub const PAIR_CODE_BYTES: usize = 8;

/// How many random bytes the token of a key is made of.
pub const TOKEN_BYTES: usize = 32;

/// The line before the part of the host document that speaks of pairing.
pub const PAIR_MARKER_START: &'static str = "<!-- board-api-pair:start -->";

/// The line behind it.
pub const PAIR_MARKER_END: &'static str = "<!-- board-api-pair:end -->";

/// The letters and digits of pairing codes, without those that are easily mistaken.
pub const PAIR_ALPHABET: &'static str = "ABCDEFGHJKLMNPQRSTUVWXYZ23456789";

// ---------------------------------------------------------------------------------------------
// The store
// ---------------------------------------------------------------------------------------------

/// A key as it is stored: the hash of its token, never the token.
#[derive(Debug)]
pub struct StoredKey {
    pub id: String,
    pub sha256: String,
    pub created_at: String,
}

/// What a [`StoredKey`] says.
#[verifier::ext_equal]
pub struct KeyView {
    pub id: Seq<char>,
    pub sha256: Seq<char>,
    pub created_at: Seq<char>,
}

impl View for StoredKey {
    type V = KeyView;

    open spec fn view(&self) -> KeyView {
        KeyView { id: self.id@, sha256: self.sha256@, created_at: self.created_at@ }
    }
}

/// A pairing code as it is stored: its hash, and when it expires.
#[derive(Debug)]
pub struct PairChallenge {
    pub sha256: String,
    pub expires_at_epoch: i64,
}

/// What a [`PairChallenge`] says.
#[verifier::ext_equal]
pub struct ChallengeView {
    pub sha256: Seq<char>,
    pub expires_at_epoch: i64,
}

impl View for PairChallenge {
    type V = ChallengeView;

    open spec fn view(&self) -> ChallengeView {
        ChallengeView { sha256: self.sha256@, expires_at_epoch: self.expires_at_epoch }
    }
}

/// What the service remembers of its clients.
#[derive(Debug)]
pub struct AuthStore {
    pub server_id: String,
    pub keys: Vec<StoredKey>,
    pub pair: Option<PairChallenge>,
}

/// What an [`AuthStore`] says.
#[verifier::ext_equal]
pub struct StoreView {
    pub server_id: Seq<char>,
    pub keys: Seq<KeyView>,
    pub pair: Option<ChallengeView>,
}

/// What each of a sequence of keys says.
pub open spec fn key_views(keys: Seq<StoredKey>) -> Seq<KeyView> {
    keys.map_values(|key: StoredKey| key@)
}

impl View for AuthStore {
    type V = StoreView;

    open spec fn view(&self) -> StoreView {
        StoreView {
            server_id: self.server_id@,
            keys: key_views(self.keys@),
            pair: match self.pair {
                Some(challenge) => Some(challenge@),
                None => None,
            },
        }
    }
}

// ---------------------------------------------------------------------------------------------
// Hashes and tokens
// ---------------------------------------------------------------------------------------------

/// Bytes in lower-case hexadecimal notation, two digits for each.
pub open spec fn hex_text(bytes: Seq<u8>) -> Seq<char>
    decreases bytes.len(),
{
    if bytes.len() == 0 {
        seq![]
    } else {
        hex_text(bytes.drop_last()).push(hex_digit(bytes.last() as int / 16)).push(
            hex_digit(bytes.last() as int % 16),
        )
    }
}

/// The hash under which a secret is stored.
pub open spec fn hash_text(secret: Seq<char>) -> Seq<char> {
    hex_text(sha256(encode_utf8(secret)))
}

fn hex_char(value: u8) -> (digit: char)
    requires
        value < 16,
    ensures
        digit == hex_digit(value as int),
{
    if value < 10 {
        (48u8 + value) as char
    } else {
        (97u8 + (value - 10)) as char
    }
}

/// Bytes in hexadecimal notation.
pub fn hex(bytes: &[u8]) -> (text: String)
    ensures
        text@ == hex_text(bytes@),
{
    let mut text = String::new();
    let mut i: usize = 0;
    while i < bytes.len()
        invariant
            i <= bytes@.len(),
            text@ == hex_text(bytes@.take(i as int)),
        decreases bytes@.len() - i,
    {
        let byte: u8 = bytes[i];
        text.push(hex_char(byte / 16));
        text.push(hex_char(byte % 16));
        assert(bytes@.take(i + 1).drop_last() == bytes@.take(i as int));
        i += 1;
    }
    assert(bytes@.take(i as int) == bytes@);
    text
}

/// The hash under which a secret is stored.
pub fn hash(secret: &str) -> (text: String)
    ensures
        text@ == hash_text(secret@),
        text@.len() == 64,
{
    let digest = sha256_digest(secret.as_bytes());
    proof {
        lemma_hex_len(digest@);
    }
    hex(digest.as_slice())
}

proof fn lemma_hex_len(bytes: Seq<u8>)
    ensures
        hex_text(bytes).len() == 2 * bytes.len(),
    decreases bytes.len(),
{
    if bytes.len() > 0 {
        lemma_hex_len(bytes.drop_last());
    }
}

/// Whether two sequences of bytes are equal, in a time that depends on their lengths alone.
pub fn constant_time_equal(left: &[u8], right: &[u8]) -> (same: bool)
    ensures
        same == (left@ == right@),
{
    if left.len() != right.len() {
        return false;
    }
    let mut difference: u8 = 0;
    let mut i: usize = 0;
    while i < left.len()
        invariant
            left@.len() == right@.len(),
            i <= left@.len(),
            difference == 0 <==> forall|k: int| 0 <= k < i ==> left@[k] == right@[k],
        decreases left@.len() - i,
    {
        let a: u8 = left[i];
        let b: u8 = right[i];
        let before: u8 = difference;
        assert((before | (a ^ b)) == 0 <==> before == 0 && a == b) by (bit_vector);
        difference = difference | (a ^ b);
        i += 1;
    }
    if difference == 0 {
        assert(left@ == right@);
    }
    difference == 0
}

/// Whether two texts are equal, compared as bytes.
fn hashes_equal(left: &str, right: &str) -> (same: bool)
    ensures
        same == (left@ == right@),
{
    proof {
        vstd::utf8::encode_utf8_decode_utf8(left@);
        vstd::utf8::encode_utf8_decode_utf8(right@);
    }
    constant_time_equal(left.as_bytes(), right.as_bytes())
}

/// The token that random bytes make.
pub open spec fn token_of(random: Seq<u8>) -> Seq<char> {
    "board_"@ + hex_text(random)
}

/// The stored key for a token.
pub open spec fn key_for(token: Seq<char>, id: u128, created_at: Seq<char>) -> KeyView {
    KeyView { id: hyphenated(id), sha256: hash_text(token), created_at }
}

/// Neither the hash nor the identifier of a key holds the token.
pub open spec fn hides(key: KeyView, token: Seq<char>) -> bool {
    !occurs(key.sha256, token) && !occurs(key.id, token)
}

/// A key and its token, made of random bytes, an identifier and a time. What is stored hides the
/// token.
pub fn stored_key(random: &[u8; TOKEN_BYTES], id: u128, created_at: String) -> (minted: (
    StoredKey,
    String,
))
    ensures
        minted.1@ == token_of(random@),
        minted.1@.len() == 70,
        minted.0@ == key_for(minted.1@, id, created_at@),
        minted.0.sha256@.len() == 64,
        hides(minted.0@, minted.1@),
{
    let token = "board_".to_owned().concat(hex(random.as_slice()).as_str());
    let stored = StoredKey { id: uuid_text(id), sha256: hash(token.as_str()), created_at };
    proof {
        lemma_token(random@);
    }
    (stored, token)
}

/// A new key and its token. The identifier is random and the time is the present.
pub fn mint_stored_key(random: &[u8; TOKEN_BYTES]) -> (minted: (StoredKey, String))
    ensures
        minted.1@ == token_of(random@),
        minted.1@.len() == 70,
        minted.0.sha256@.len() == 64,
        hides(minted.0@, minted.1@),
        exists|id: u128, created_at: Seq<char>|
            is_random_id(id) && is_timestamp(created_at) && minted.0@ == #[trigger] key_for(
                minted.1@,
                id,
                created_at,
            ),
{
    stored_key(random, random_uuid(), iso_now())
}

/// The pairing code that random bytes make: one character of the alphabet for each.
pub open spec fn pair_code(random: Seq<u8>) -> Seq<char> {
    Seq::new(random.len(), |i: int| PAIR_ALPHABET@[random[i] as int % 32])
}

/// A pairing code made of random bytes: eight characters.
pub fn generate_pair_code(random: &[u8; PAIR_CODE_BYTES]) -> (code: String)
    ensures
        code@ == pair_code(random@),
        code@.len() == 8,
{
    let alphabet = chars_of(PAIR_ALPHABET);
    proof {
        reveal_strlit("ABCDEFGHJKLMNPQRSTUVWXYZ23456789");
    }
    let mut code = String::new();
    let mut i: usize = 0;
    while i < PAIR_CODE_BYTES
        invariant
            random@.len() == PAIR_CODE_BYTES,
            alphabet@ == PAIR_ALPHABET@,
            alphabet@.len() == 32,
            i <= random@.len(),
            code@ == pair_code(random@.take(i as int)),
        decreases random@.len() - i,
    {
        code.push(alphabet[(random[i] % 32) as usize]);
        i += 1;
        assert(code@ == pair_code(random@.take(i as int)));
    }
    assert(random@.take(i as int) == random@);
    code
}

// ---------------------------------------------------------------------------------------------
// The clients
// ---------------------------------------------------------------------------------------------

/// The clients of the service, and the code that links the first of them.
pub struct AuthManager {
    pub store: AuthStore,
}

/// The store as it was read, or a new one.
pub open spec fn opened(existing: Option<StoreView>, fresh_id: u128) -> StoreView {
    match existing {
        Some(store) => store,
        None => StoreView { server_id: hyphenated(fresh_id), keys: seq![], pair: None },
    }
}

/// No client is linked, and there is no code that one could be linked with.
pub open spec fn needs_code(store: StoreView, now: i64) -> bool {
    store.keys.len() == 0 && match store.pair {
        Some(challenge) => challenge.expires_at_epoch <= now,
        None => true,
    }
}

/// When a code that is made now expires.
pub open spec fn expiry(now: i64) -> int {
    if now > i64::MAX - PAIR_CODE_LIFETIME_SECONDS {
        i64::MAX as int
    } else {
        now + PAIR_CODE_LIFETIME_SECONDS
    }
}

/// The store with a new pairing code.
pub open spec fn with_code(store: StoreView, code: Seq<char>, now: i64) -> StoreView {
    StoreView {
        pair: Some(
            ChallengeView { sha256: hash_text(code), expires_at_epoch: expiry(now) as i64 },
        ),
        ..store
    }
}

/// What opening the store comes to: the store, and the pairing code where a new one was made.
pub open spec fn opening(
    existing: Option<StoreView>,
    random: Result<Seq<u8>, Seq<char>>,
    fresh_id: u128,
    now: i64,
) -> Result<(StoreView, Option<Seq<char>>), Seq<char>> {
    let store = opened(existing, fresh_id);
    if !needs_code(store, now) {
        Ok((store, None))
    } else {
        match random {
            Ok(bytes) => Ok((with_code(store, pair_code(bytes), now), Some(pair_code(bytes)))),
            Err(message) => Err(message),
        }
    }
}

/// What an optional store says.
pub open spec fn maybe_store(store: Option<AuthStore>) -> Option<StoreView> {
    match store {
        Some(store) => Some(store@),
        None => None,
    }
}

/// Random bytes, or why there are none.
pub open spec fn random_view<const N: usize>(random: Result<[u8; N], String>) -> Result<
    Seq<u8>,
    Seq<char>,
> {
    match random {
        Ok(bytes) => Ok(bytes@),
        Err(message) => Err(message@),
    }
}

/// The result of opening the store as values.
pub open spec fn opening_view(result: Result<(AuthManager, Option<String>), String>) -> Result<
    (StoreView, Option<Seq<char>>),
    Seq<char>,
> {
    match result {
        Ok((manager, code)) => Ok((manager.store@, crate::text::maybe_text(code))),
        Err(message) => Err(message@),
    }
}

/// Why a code does not link a client.
pub open spec fn pair_refusal(store: StoreView, code: Seq<char>, now: i64) -> Option<ErrorView> {
    if store.keys.len() > 0 || store.pair is None {
        Some(error_of(409, "pairing_unavailable"@, "pairing code has already been used"@))
    } else if store.pair->0.expires_at_epoch <= now {
        Some(error_of(410, "pairing_expired"@, "pairing code expired"@))
    } else if store.pair->0.sha256 != hash_text(upper(trim(code))) {
        Some(refused())
    } else {
        None
    }
}

/// The store once its first client is linked.
pub open spec fn linked(store: StoreView, key: KeyView) -> StoreView {
    StoreView { keys: store.keys.push(key), pair: None, ..store }
}

/// The store with one more key.
pub open spec fn with_key(store: StoreView, key: KeyView) -> StoreView {
    StoreView { keys: store.keys.push(key), ..store }
}

/// What comes of an attempt to link a client: the store behind it, and the answer.
pub open spec fn pairing(
    before: StoreView,
    code: Seq<char>,
    base_url: Seq<char>,
    random: Result<Seq<u8>, Seq<char>>,
    now: i64,
    id: u128,
    created_at: Seq<char>,
    after: StoreView,
    answer: Result<PairResponse, ApiError>,
) -> bool {
    match pair_refusal(before, code, now) {
        Some(error) => after == before && answer is Err && answer->Err_0@ == error,
        None => match random {
            Err(message) => after == before && answer is Err && answer->Err_0@ == fault(message),
            Ok(bytes) => {
                let token = token_of(bytes);
                &&& after == linked(before, key_for(token, id, created_at))
                &&& answer matches Ok(response)
                &&& response.token@ == token
                &&& response.server_id@ == before.server_id
                &&& response.name@ == "board"@
                &&& response.base_url@ == base_url
            },
        },
    }
}

/// What comes of making a further key.
pub open spec fn minting(
    before: StoreView,
    random: Result<Seq<u8>, Seq<char>>,
    id: u128,
    created_at: Seq<char>,
    after: StoreView,
    answer: Result<MintKeyResponse, ApiError>,
) -> bool {
    match random {
        Err(message) => after == before && answer is Err && answer->Err_0@ == fault(message),
        Ok(bytes) => {
            let token = token_of(bytes);
            &&& after == with_key(before, key_for(token, id, created_at))
            &&& answer matches Ok(response)
            &&& response.token@ == token
            &&& response.id@ == hyphenated(id)
        },
    }
}

/// A token of one of the stored keys.
pub open spec fn authorized(store: StoreView, token: Seq<char>) -> bool {
    &&& begins_with(token, "board_"@)
    &&& crate::text::utf8_len(token) >= 20
    &&& exists|i: int|
        0 <= i < store.keys.len() && (#[trigger] store.keys[i]).sha256 == hash_text(token)
}

/// The keys that do not have an identifier.
pub open spec fn other_keys(id: Seq<char>) -> spec_fn(KeyView) -> bool {
    |key: KeyView| key.id != id
}

/// The store without the keys that have an identifier.
pub open spec fn without_key(store: StoreView, id: Seq<char>) -> StoreView {
    StoreView { keys: store.keys.filter(other_keys(id)), ..store }
}

/// Some key has an identifier.
pub open spec fn has_key(store: StoreView, id: Seq<char>) -> bool {
    exists|i: int| 0 <= i < store.keys.len() && (#[trigger] store.keys[i]).id == id
}

/// What comes of taking the keys with an identifier away.
pub open spec fn revoking(
    before: StoreView,
    id: Seq<char>,
    after: StoreView,
    answer: Result<(), ApiError>,
) -> bool {
    &&& after == without_key(before, id)
    &&& match answer {
        Ok(()) => has_key(before, id),
        Err(error) => !has_key(before, id) && error@ == crate::error::missing("key"@),
    }
}

impl AuthManager {
    /// Opens the store: the one that was read, or a new one. Where no client is linked and there
    /// is no code that still works, a new code is made of the random bytes; the raw code is
    /// handed out with the store, which holds its hash alone.
    pub fn open(
        existing: Option<AuthStore>,
        random: Result<[u8; PAIR_CODE_BYTES], String>,
        fresh_id: u128,
        now: i64,
    ) -> (result: Result<(AuthManager, Option<String>), String>)
        ensures
            opening_view(result) == opening(
                maybe_store(existing),
                random_view(random),
                fresh_id,
                now,
            ),
            result matches Ok((_, Some(code))) ==> code@.len() == 8,
    {
        let mut store = match existing {
            Some(store) => store,
            None => {
                let keys: Vec<StoredKey> = Vec::new();
                assert(key_views(keys@) == Seq::<KeyView>::empty());
                AuthStore { server_id: uuid_text(fresh_id), keys, pair: None }
            },
        };
        assert(store@ == opened(maybe_store(existing), fresh_id));
        let lapsed = match &store.pair {
            Some(challenge) => challenge.expires_at_epoch <= now,
            None => true,
        };
        if store.keys.len() > 0 || !lapsed {
            return Ok((AuthManager { store }, None));
        }
        match random {
            Ok(bytes) => {
                let code = generate_pair_code(&bytes);
                let expires_at_epoch: i64 = if now > i64::MAX - PAIR_CODE_LIFETIME_SECONDS {
                    i64::MAX
                } else {
                    now + PAIR_CODE_LIFETIME_SECONDS
                };
                store.pair = Some(PairChallenge { sha256: hash(code.as_str()), expires_at_epoch });
                Ok((AuthManager { store }, Some(code)))
            },
            Err(message) => Err(message),
        }
    }

    /// Opens the store at the present time.
    pub fn load_or_create(
        existing: Option<AuthStore>,
        random: Result<[u8; PAIR_CODE_BYTES], String>,
    ) -> (result: Result<(AuthManager, Option<String>), String>)
        ensures
            result matches Ok((_, Some(code))) ==> code@.len() == 8,
            exists|fresh_id: u128, now: i64|
                is_random_id(fresh_id) && opening_view(result) == #[trigger] opening(
                    maybe_store(existing),
                    random_view(random),
                    fresh_id,
                    now,
                ),
    {
        AuthManager::open(existing, random, random_uuid(), now_epoch())
    }

    /// The identifier of this server.
    pub fn server_id(&self) -> (id: String)
        ensures
            id@ == self.store@.server_id,
    {
        self.store.server_id.clone()
    }

    /// Whether a token is the token of one of the keys.
    pub fn authorize(&self, token: &str) -> (yes: bool)
        ensures
            yes == authorized(self.store@, token@),
    {
        if !starts_with(token, "board_") || crate::text::byte_len(token) < 20 {
            return false;
        }
        let candidate = hash(token);
        let mut i: usize = 0;
        while i < self.store.keys.len()
            invariant
                i <= self.store.keys@.len(),
                begins_with(token@, "board_"@),
                crate::text::utf8_len(token@) >= 20,
                candidate@ == hash_text(token@),
                forall|k: int|
                    0 <= k < i ==> (#[trigger] self.store@.keys[k]).sha256 != hash_text(token@),
            decreases self.store.keys@.len() - i,
        {
            if hashes_equal(self.store.keys[i].sha256.as_str(), candidate.as_str()) {
                assert(self.store@.keys[i as int].sha256 == hash_text(token@));
                return true;
            }
            i += 1;
        }
        false
    }

    /// Links the first client with the pairing code, at a given time and with given random
    /// values.
    pub fn pair_at(
        &mut self,
        code: &str,
        base_url: String,
        random: Result<[u8; TOKEN_BYTES], String>,
        now: i64,
        id: u128,
        created_at: String,
    ) -> (answer: Result<PairResponse, ApiError>)
        ensures
            pairing(
                old(self).store@,
                code@,
                base_url@,
                random_view(random),
                now,
                id,
                created_at@,
                final(self).store@,
                answer,
            ),
    {
        let candidate = hash(uppered(trimmed(code).as_str()).as_str());
        if self.store.keys.len() > 0 {
            return Err(
                ApiError::conflict("pairing_unavailable", "pairing code has already been used"),
            );
        }
        match &self.store.pair {
            None => {
                return Err(
                    ApiError::conflict("pairing_unavailable", "pairing code has already been used"),
                );
            },
            Some(challenge) => {
                if challenge.expires_at_epoch <= now {
                    return Err(
                        ApiError::new(410, "pairing_expired", "pairing code expired".to_owned()),
                    );
                }
                if !hashes_equal(challenge.sha256.as_str(), candidate.as_str()) {
                    return Err(ApiError::unauthorized());
                }
            },
        }
        match random {
            Err(message) => Err(ApiError::internal(message)),
            Ok(bytes) => {
                let ghost before = self.store.keys@;
                let (stored, token) = stored_key(&bytes, id, created_at);
                self.store.keys.push(stored);
                self.store.pair = None;
                assert(key_views(self.store.keys@) == key_views(before).push(stored@));
                let server_id = self.store.server_id.clone();
                Ok(PairResponse { token, server_id, name: "board", base_url })
            },
        }
    }

    /// Links the first client with the pairing code.
    pub fn pair(
        &mut self,
        code: &str,
        base_url: String,
        random: Result<[u8; TOKEN_BYTES], String>,
    ) -> (answer: Result<PairResponse, ApiError>)
        ensures
            exists|now: i64, id: u128, created_at: Seq<char>|
                is_random_id(id) && is_timestamp(created_at) && #[trigger] pairing(
                    old(self).store@,
                    code@,
                    base_url@,
                    random_view(random),
                    now,
                    id,
                    created_at,
                    final(self).store@,
                    answer,
                ),
    {
        self.pair_at(code, base_url, random, now_epoch(), random_uuid(), iso_now())
    }

    /// Makes a further key, with given random values and at a given time.
    pub fn mint_key_at(
        &mut self,
        random: Result<[u8; TOKEN_BYTES], String>,
        id: u128,
        created_at: String,
    ) -> (answer: Result<MintKeyResponse, ApiError>)
        ensures
            minting(
                old(self).store@,
                random_view(random),
                id,
                created_at@,
                final(self).store@,
                answer,
            ),
    {
        match random {
            Err(message) => Err(ApiError::internal(message)),
            Ok(bytes) => {
                let ghost before = self.store.keys@;
                let (stored, token) = stored_key(&bytes, id, created_at);
                let key_id = stored.id.clone();
                self.store.keys.push(stored);
                assert(key_views(self.store.keys@) == key_views(before).push(stored@));
                Ok(MintKeyResponse { id: key_id, token })
            },
        }
    }

    /// Makes a further key.
    pub fn mint_key(&mut self, random: Result<[u8; TOKEN_BYTES], String>) -> (answer: Result<
        MintKeyResponse,
        ApiError,
    >)
        ensures
            exists|id: u128, created_at: Seq<char>|
                is_random_id(id) && is_timestamp(created_at) && #[trigger] minting(
                    old(self).store@,
                    random_view(random),
                    id,
                    created_at,
                    final(self).store@,
                    answer,
                ),
    {
        self.mint_key_at(random, random_uuid(), iso_now())
    }

    /// Takes the keys with an identifier away.
    pub fn revoke(&mut self, id: &str) -> (answer: Result<(), ApiError>)
        ensures
            revoking(old(self).store@, id@, final(self).store@, answer),
    {
        let ghost before = self.store.keys@;
        let mut kept: Vec<StoredKey> = Vec::new();
        let mut rest: Vec<StoredKey> = Vec::new();
        let mut found = false;
        std::mem::swap(&mut rest, &mut self.store.keys);
        let count: usize = rest.len();
        let mut i: usize = 0;
        assert(before.skip(0) == before);
        reveal(Seq::filter);
        while i < count
            invariant
                i <= count,
                count == before.len(),
                rest@ == before.skip(i as int),
                key_views(kept@) == key_views(before).take(i as int).filter(other_keys(id@)),
                found == exists|k: int|
                    0 <= k < i && (#[trigger] key_views(before)[k]).id == id@,
            decreases count - i,
        {
            let key = rest.remove(0);
            assert(key == before[i as int]);
            assert(rest@ == before.skip(i + 1));
            let ghost kept_before = kept@;
            proof {
                reveal(Seq::filter);
                assert(key_views(before).take(i + 1).drop_last() == key_views(before).take(
                    i as int,
                ));
                assert(key_views(before).take(i + 1).last() == key@);
            }
            if same_text(key.id.as_str(), id) {
                found = true;
                assert(key_views(before)[i as int].id == id@);
            } else {
                kept.push(key);
                assert(key_views(kept@) == key_views(kept_before).push(key@));
            }
            i += 1;
        }
        self.store.keys = kept;
        assert(key_views(before).take(i as int) == key_views(before));
        if found {
            Ok(())
        } else {
            Err(ApiError::not_found("key"))
        }
    }

    /// Whether a request with this `Authorization` header may go on.
    pub fn check_header(&self, header: Option<&str>) -> (answer: Result<(), ApiError>)
        ensures
            match answer {
                Ok(()) => carries_key(self.store@, maybe_str(header)),
                Err(error) => !carries_key(self.store@, maybe_str(header)) && error@ == refused(),
            },
    {
        match header {
            Some(value) => match strip_prefix(value, "Bearer ") {
                Some(token) => if self.authorize(token.as_str()) {
                    Ok(())
                } else {
                    Err(ApiError::unauthorized())
                },
                None => Err(ApiError::unauthorized()),
            },
            None => Err(ApiError::unauthorized()),
        }
    }
}

/// A request with this header carries a token of one of the keys.
pub open spec fn carries_key(store: StoreView, header: Option<Seq<char>>) -> bool {
    match header {
        Some(value) => begins_with(value, "Bearer "@) && authorized(
            store,
            value.skip("Bearer "@.len() as int),
        ),
        None => false,
    }
}

// ---------------------------------------------------------------------------------------------
// Laws
// ---------------------------------------------------------------------------------------------

/// A change of the store: a key is minted or revoked, a client is linked, or the store is opened
/// anew and gets a pairing code where it needs one.
pub enum StoreChange {
    Mint(KeyView),
    Revoke(Seq<char>),
    Link(KeyView),
    Open { code: Seq<char>, now: i64 },
}

/// The store after a change. A client is linked only where there is a code to link it with.
pub open spec fn changed(store: StoreView, change: StoreChange) -> StoreView {
    match change {
        StoreChange::Mint(key) => with_key(store, key),
        StoreChange::Revoke(id) => without_key(store, id),
        StoreChange::Link(key) => if store.keys.len() == 0 && store.pair is Some {
            linked(store, key)
        } else {
            store
        },
        StoreChange::Open { code, now } => if needs_code(store, now) {
            with_code(store, code, now)
        } else {
            store
        },
    }
}

/// The store after a sequence of changes.
pub open spec fn after_changes(store: StoreView, changes: Seq<StoreChange>) -> StoreView
    decreases changes.len(),
{
    if changes.len() == 0 {
        store
    } else {
        changed(after_changes(store, changes.drop_last()), changes.last())
    }
}

/// Minting, linking, revoking and opening each change the store in one of these ways, or not at
/// all.
pub proof fn every_operation_is_a_change(
    before: StoreView,
    code: Seq<char>,
    base_url: Seq<char>,
    random: Result<Seq<u8>, Seq<char>>,
    now: i64,
    id: u128,
    created_at: Seq<char>,
    after: StoreView,
    paired: Result<PairResponse, ApiError>,
    minted: Result<MintKeyResponse, ApiError>,
    key_id: Seq<char>,
    revoked: Result<(), ApiError>,
)
    ensures
        pairing(before, code, base_url, random, now, id, created_at, after, paired) ==> after
            == before || after == changed(
            before,
            StoreChange::Link(key_for(token_of(random->Ok_0), id, created_at)),
        ),
        minting(before, random, id, created_at, after, minted) ==> after == before || after
            == changed(
            before,
            StoreChange::Mint(key_for(token_of(random->Ok_0), id, created_at)),
        ),
        revoking(before, key_id, after, revoked) ==> after == changed(
            before,
            StoreChange::Revoke(key_id),
        ),
        opening(Some(before), random, id, now) matches Ok((opened, _)) ==> opened == changed(
            before,
            StoreChange::Open { code: pair_code(random->Ok_0), now },
        ),
{
}

proof fn lemma_no_code_comes_back(store: StoreView, changes: Seq<StoreChange>)
    requires
        store.pair is None,
        forall|i: int| 0 <= i < changes.len() ==> (#[trigger] changes[i]) !is Open,
    ensures
        after_changes(store, changes).pair is None,
    decreases changes.len(),
{
    if changes.len() > 0 {
        let shorter = changes.drop_last();
        assert forall|i: int| 0 <= i < shorter.len() implies (#[trigger] shorter[i]) !is Open by {
            assert(shorter[i] == changes[i]);
        }
        lemma_no_code_comes_back(store, shorter);
        assert(changes[changes.len() - 1] !is Open);
    }
}

/// Some key holds a hash.
pub open spec fn holds(store: StoreView, hash: Seq<char>) -> bool {
    exists|i: int| 0 <= i < store.keys.len() && (#[trigger] store.keys[i]).sha256 == hash
}

/// A change adds a key with a hash.
pub open spec fn adds(change: StoreChange, hash: Seq<char>) -> bool {
    match change {
        StoreChange::Mint(key) => key.sha256 == hash,
        StoreChange::Link(key) => key.sha256 == hash,
        _ => false,
    }
}

/// A key that is not revoked stays.
proof fn lemma_key_stays(store: StoreView, changes: Seq<StoreChange>, key: KeyView)
    requires
        store.keys.contains(key),
        forall|i: int|
            0 <= i < changes.len() ==> #[trigger] changes[i] != StoreChange::Revoke(key.id),
    ensures
        after_changes(store, changes).keys.contains(key),
    decreases changes.len(),
{
    if changes.len() > 0 {
        let shorter = changes.drop_last();
        assert forall|i: int| 0 <= i < shorter.len() implies #[trigger] shorter[i]
            != StoreChange::Revoke(key.id) by {
            assert(shorter[i] == changes[i]);
        }
        lemma_key_stays(store, shorter, key);
        let before = after_changes(store, shorter);
        let after = after_changes(store, changes);
        let at = choose|at: int| 0 <= at < before.keys.len() && before.keys[at] == key;
        assert(changes[changes.len() - 1] != StoreChange::Revoke(key.id));
        match changes.last() {
            StoreChange::Mint(_) => {
                assert(after.keys[at] == key);
            },
            StoreChange::Revoke(id) => {
                broadcast use vstd::seq_lib::group_filter_ensures;

                assert(other_keys(id)(before.keys[at]));
                assert(after.keys.contains(before.keys[at]));
            },
            _ => {},
        }
    }
}

/// Where every key with a hash has one identifier and none is added, a revocation of that
/// identifier takes the hash away for good.
proof fn lemma_hash_goes(
    store: StoreView,
    changes: Seq<StoreChange>,
    hash: Seq<char>,
    id: Seq<char>,
    at: int,
)
    requires
        0 <= at < changes.len(),
        changes[at] == StoreChange::Revoke(id),
        forall|i: int|
            0 <= i < store.keys.len() && (#[trigger] store.keys[i]).sha256 == hash
                ==> store.keys[i].id == id,
        forall|i: int| 0 <= i < changes.len() ==> !adds(#[trigger] changes[i], hash),
    ensures
        !holds(after_changes(store, changes), hash),
    decreases changes.len(),
{
    let shorter = changes.drop_last();
    let before = after_changes(store, shorter);
    let after = after_changes(store, changes);
    assert forall|i: int| 0 <= i < shorter.len() implies !adds(#[trigger] shorter[i], hash) by {
        assert(shorter[i] == changes[i]);
    }
    assert(!adds(changes[changes.len() - 1], hash));
    if at < shorter.len() {
        assert(shorter[at] == StoreChange::Revoke(id));
        lemma_hash_goes(store, shorter, hash, id, at);
    } else {
        lemma_hash_owner(store, shorter, hash, id);
    }
    if holds(after, hash) {
        let j = choose|j: int| 0 <= j < after.keys.len() && (#[trigger] after.keys[j]).sha256
            == hash;
        match changes.last() {
            StoreChange::Revoke(gone) => {
                before.keys.lemma_filter_pred(other_keys(gone), j);
                crate::order::lemma_filter_source(before.keys, other_keys(gone), j);
                let i = choose|i: int|
                    0 <= i < before.keys.len() && #[trigger] before.keys[i] == after.keys[j];
                assert(before.keys[i].sha256 == hash);
            },
            _ => {
                assert(j < before.keys.len());
                assert(before.keys[j].sha256 == hash);
            },
        }
    }
}

/// Where every key with a hash has one identifier and none is added, that stays so.
proof fn lemma_hash_owner(
    store: StoreView,
    changes: Seq<StoreChange>,
    hash: Seq<char>,
    id: Seq<char>,
)
    requires
        forall|i: int|
            0 <= i < store.keys.len() && (#[trigger] store.keys[i]).sha256 == hash
                ==> store.keys[i].id == id,
        forall|i: int| 0 <= i < changes.len() ==> !adds(#[trigger] changes[i], hash),
    ensures
        forall|i: int|
            0 <= i < after_changes(store, changes).keys.len() && (
            #[trigger] after_changes(store, changes).keys[i]).sha256 == hash ==> after_changes(
                store,
                changes,
            ).keys[i].id == id,
    decreases changes.len(),
{
    if changes.len() > 0 {
        let shorter = changes.drop_last();
        assert forall|i: int| 0 <= i < shorter.len() implies !adds(#[trigger] shorter[i], hash) by {
            assert(shorter[i] == changes[i]);
        }
        lemma_hash_owner(store, shorter, hash, id);
        let before = after_changes(store, shorter);
        let after = after_changes(store, changes);
        assert(!adds(changes[changes.len() - 1], hash));
        assert forall|j: int|
            0 <= j < after.keys.len() && (#[trigger] after.keys[j]).sha256
                == hash implies after.keys[j].id == id by {
            match changes.last() {
                StoreChange::Revoke(gone) => {
                    crate::order::lemma_filter_source(before.keys, other_keys(gone), j);
                    let i = choose|i: int|
                        0 <= i < before.keys.len() && #[trigger] before.keys[i] == after.keys[j];
                    assert(before.keys[i].sha256 == hash);
                },
                _ => {
                    assert(j < before.keys.len());
                    assert(before.keys[j].sha256 == hash);
                },
            }
        }
    }
}

proof fn lemma_token(random: Seq<u8>)
    requires
        random.len() == TOKEN_BYTES,
    ensures
        begins_with(token_of(random), "board_"@),
        crate::text::utf8_len(token_of(random)) >= 20,
        token_of(random).len() == 6 + 2 * random.len(),
{
    reveal_strlit("board_");
    lemma_hex_len(random);
    crate::text::lemma_utf8_len(token_of(random));
    assert(token_of(random).take(6) == "board_"@);
}

/// The token of a key that is there works until the key is revoked, and never after, where no other
/// key holds its hash.
proof fn lemma_token_life(
    before: StoreView,
    after: StoreView,
    random: Seq<u8>,
    key: KeyView,
    changes: Seq<StoreChange>,
)
    requires
        random.len() == TOKEN_BYTES,
        key.sha256 == hash_text(token_of(random)),
        after.keys == before.keys.push(key),
    ensures
        authorized(after, token_of(random)),
        !changes.contains(StoreChange::Revoke(key.id)) ==> authorized(
            after_changes(after, changes),
            token_of(random),
        ),
        changes.contains(StoreChange::Revoke(key.id)) && !holds(before, key.sha256) && (
        forall|i: int| 0 <= i < changes.len() ==> !adds(#[trigger] changes[i], key.sha256))
            ==> !authorized(after_changes(after, changes), token_of(random)),
{
    lemma_token(random);
    assert(after.keys[before.keys.len() as int] == key);
    let end = after_changes(after, changes);
    let revoke = StoreChange::Revoke(key.id);
    if !changes.contains(revoke) {
        assert forall|i: int| 0 <= i < changes.len() implies #[trigger] changes[i] != revoke by {
            assert(changes.contains(changes[i]));
        }
        lemma_key_stays(after, changes, key);
        let at = choose|at: int| 0 <= at < end.keys.len() && end.keys[at] == key;
        assert(end.keys[at].sha256 == key.sha256);
    } else if !holds(before, key.sha256) && (forall|i: int|
        0 <= i < changes.len() ==> !adds(#[trigger] changes[i], key.sha256)) {
        let at = choose|at: int| 0 <= at < changes.len() && changes[at] == revoke;
        assert forall|i: int|
            0 <= i < after.keys.len() && (#[trigger] after.keys[i]).sha256
                == key.sha256 implies after.keys[i].id == key.id by {
            if i < before.keys.len() {
                assert(before.keys[i].sha256 == key.sha256);
            }
        }
        lemma_hash_goes(after, changes, key.sha256, key.id, at);
    }
}

/// The token of a new key is accepted until the key is revoked, whatever else is minted, revoked,
/// linked or opened in between. Once the key is revoked the token is refused for good, where no
/// other key holds the hash of the token.
pub proof fn a_minted_token_is_accepted_until_it_is_revoked(
    before: StoreView,
    random: Seq<u8>,
    id: u128,
    created_at: Seq<char>,
    after: StoreView,
    answer: Result<MintKeyResponse, ApiError>,
    changes: Seq<StoreChange>,
)
    requires
        minting(before, Ok(random), id, created_at, after, answer),
        random.len() == TOKEN_BYTES,
    ensures
        answer is Ok,
        authorized(after, answer->Ok_0.token@),
        !changes.contains(StoreChange::Revoke(answer->Ok_0.id@)) ==> authorized(
            after_changes(after, changes),
            answer->Ok_0.token@,
        ),
        changes.contains(StoreChange::Revoke(answer->Ok_0.id@)) && !holds(
            before,
            hash_text(answer->Ok_0.token@),
        ) && (forall|i: int|
            0 <= i < changes.len() ==> !adds(
                #[trigger] changes[i],
                hash_text(answer->Ok_0.token@),
            )) ==> !authorized(after_changes(after, changes), answer->Ok_0.token@),
{
    lemma_token_life(
        before,
        after,
        random,
        key_for(token_of(random), id, created_at),
        changes,
    );
}

/// Revoking a key changes the answer for no token but its own, where all keys with its identifier
/// hold the hash of that token.
pub proof fn revoking_touches_no_other_token(
    store: StoreView,
    id: Seq<char>,
    token: Seq<char>,
    other: Seq<char>,
)
    requires
        forall|i: int|
            0 <= i < store.keys.len() && (#[trigger] store.keys[i]).id == id
                ==> store.keys[i].sha256 == hash_text(token),
        hash_text(other) != hash_text(token),
    ensures
        authorized(without_key(store, id), other) == authorized(store, other),
{
    revoking_ends_a_token(store, id, other);
}

/// What does not begin as a token does, or is shorter than twenty bytes, is always refused.
pub proof fn other_texts_are_always_refused(store: StoreView, token: Seq<char>)
    requires
        !begins_with(token, "board_"@) || crate::text::utf8_len(token) < 20,
    ensures
        !authorized(store, token),
{
}

/// A client that a pairing code has linked is accepted until its key is revoked, whatever else is
/// minted, revoked or opened in between. Once the key is revoked the client is refused for good,
/// where no other key holds the hash of its token.
pub proof fn a_linked_client_is_accepted_until_it_is_revoked(
    before: StoreView,
    code: Seq<char>,
    base_url: Seq<char>,
    random: Seq<u8>,
    now: i64,
    id: u128,
    created_at: Seq<char>,
    after: StoreView,
    answer: Result<PairResponse, ApiError>,
    changes: Seq<StoreChange>,
)
    requires
        pairing(before, code, base_url, Ok(random), now, id, created_at, after, answer),
        random.len() == TOKEN_BYTES,
        answer is Ok,
    ensures
        authorized(after, answer->Ok_0.token@),
        !changes.contains(StoreChange::Revoke(hyphenated(id))) ==> authorized(
            after_changes(after, changes),
            answer->Ok_0.token@,
        ),
        changes.contains(StoreChange::Revoke(hyphenated(id))) && (forall|i: int|
            0 <= i < changes.len() ==> !adds(
                #[trigger] changes[i],
                hash_text(answer->Ok_0.token@),
            )) ==> !authorized(after_changes(after, changes), answer->Ok_0.token@),
{
    assert(!holds(before, hash_text(token_of(random))));
    lemma_token_life(
        before,
        after,
        random,
        key_for(token_of(random), id, created_at),
        changes,
    );
}

/// A pairing code works once: after it has linked a client, no code links another, whatever is
/// minted or revoked later.
pub proof fn a_pairing_code_works_once(
    before: StoreView,
    code: Seq<char>,
    base_url: Seq<char>,
    random: Result<Seq<u8>, Seq<char>>,
    now: i64,
    id: u128,
    created_at: Seq<char>,
    after: StoreView,
    answer: Result<PairResponse, ApiError>,
    changes: Seq<StoreChange>,
    next_code: Seq<char>,
    later: i64,
)
    requires
        pairing(before, code, base_url, random, now, id, created_at, after, answer),
        answer is Ok,
        forall|i: int| 0 <= i < changes.len() ==> (#[trigger] changes[i]) !is Open,
    ensures
        pair_refusal(after_changes(after, changes), next_code, later) == Some(
            error_of(409, "pairing_unavailable"@, "pairing code has already been used"@),
        ),
{
    lemma_no_code_comes_back(after, changes);
}

/// An attempt that fails leaves the store as it was.
pub proof fn a_refused_attempt_changes_nothing(
    before: StoreView,
    code: Seq<char>,
    base_url: Seq<char>,
    random: Result<Seq<u8>, Seq<char>>,
    now: i64,
    id: u128,
    created_at: Seq<char>,
    after: StoreView,
    answer: Result<PairResponse, ApiError>,
)
    requires
        pairing(before, code, base_url, random, now, id, created_at, after, answer),
        answer is Err,
    ensures
        after == before,
{
}

/// While a key exists, opening the store makes no pairing code and changes nothing.
pub proof fn linked_servers_make_no_code(
    store: StoreView,
    random: Result<Seq<u8>, Seq<char>>,
    fresh_id: u128,
    now: i64,
)
    requires
        store.keys.len() > 0,
    ensures
        opening(Some(store), random, fresh_id, now) == Ok::<
            (StoreView, Option<Seq<char>>),
            Seq<char>,
        >((store, None)),
{
}

/// The code that opening the store hands out links a client until it expires, in any letter case
/// and with white space around it.
pub proof fn the_shown_code_links(
    existing: Option<StoreView>,
    random: Seq<u8>,
    fresh_id: u128,
    now: i64,
    typed: Seq<char>,
    later: i64,
)
    requires
        needs_code(opened(existing, fresh_id), now),
        later < expiry(now),
        upper(trim(typed)) == pair_code(random),
    ensures
        opening(existing, Ok(random), fresh_id, now) matches Ok((store, code)) && code == Some(
            pair_code(random),
        ) && pair_refusal(store, typed, later) is None,
        upper(trim(pair_code(random))) == pair_code(random),
{
    reveal_strlit("ABCDEFGHJKLMNPQRSTUVWXYZ23456789");
    let code = pair_code(random);
    assert forall|k: int| 0 <= k < code.len() implies !crate::text::is_space(#[trigger] code[k])
        && crate::text::upper_char(code[k]) == code[k] by {
        let at = random[k] as int % 32;
        assert(code[k] == PAIR_ALPHABET@[at]);
        assert(0 <= at < 32);
    }
    crate::text::lemma_trim_nothing(code);
    assert(upper(code) == code);
}

/// A code that nobody used is replaced once it has expired, when the store is next opened.
pub proof fn expired_codes_are_replaced(
    store: StoreView,
    random: Seq<u8>,
    fresh_id: u128,
    now: i64,
)
    requires
        store.keys.len() == 0,
        store.pair is Some,
        store.pair->0.expires_at_epoch <= now,
    ensures
        opening(Some(store), Ok(random), fresh_id, now) == Ok::<
            (StoreView, Option<Seq<char>>),
            Seq<char>,
        >((with_code(store, pair_code(random), now), Some(pair_code(random)))),
{
}

/// A code works for fifteen minutes, and is then answered as expired.
pub proof fn codes_expire_after_fifteen_minutes(
    store: StoreView,
    code: Seq<char>,
    now: i64,
    later: i64,
)
    requires
        store.keys.len() == 0,
        now <= i64::MAX - PAIR_CODE_LIFETIME_SECONDS,
    ensures
        pair_refusal(with_code(store, code, now), code, later) == Some(
            error_of(410, "pairing_expired"@, "pairing code expired"@),
        ) <==> later - now >= 15 * 60,
{
    let refusal = pair_refusal(with_code(store, code, now), code, later);
    if later - now < 15 * 60 {
        if refusal == Some(error_of(410, "pairing_expired"@, "pairing code expired"@)) {
            assert(refusal == Some(refused()));
            assert(refusal->0.status == 401);
        }
    }
}

/// A pairing code is eight upper-case letters and digits.
pub proof fn pair_codes_are_plain(random: Seq<u8>, k: int)
    requires
        random.len() == PAIR_CODE_BYTES,
        0 <= k < 8,
    ensures
        pair_code(random).len() == 8,
        'A' <= pair_code(random)[k] <= 'Z' || '2' <= pair_code(random)[k] <= '9',
{
    reveal_strlit("ABCDEFGHJKLMNPQRSTUVWXYZ23456789");
    let at = random[k] as int % 32;
    assert(pair_code(random)[k] == PAIR_ALPHABET@[at]);
    assert(0 <= at < 32);
}

proof fn lemma_hex_injective(left: Seq<u8>, right: Seq<u8>)
    requires
        hex_text(left) == hex_text(right),
    ensures
        left == right,
    decreases left.len(),
{
    lemma_hex_len(left);
    lemma_hex_len(right);
    if left.len() > 0 {
        let a = hex_text(left);
        let b = hex_text(right);
        let first = hex_text(left.drop_last());
        let second = hex_text(right.drop_last());
        assert(a.drop_last().drop_last() == first);
        assert(b.drop_last().drop_last() == second);
        lemma_hex_injective(left.drop_last(), right.drop_last());
        assert(a[a.len() - 1] == b[b.len() - 1]);
        assert(a[a.len() - 2] == b[b.len() - 2]);
        let x = left.last() as int;
        let y = right.last() as int;
        assert(hex_digit(x % 16) == hex_digit(y % 16));
        assert(hex_digit(x / 16) == hex_digit(y / 16));
        assert(x == y);
        assert(left == left.drop_last().push(left.last()));
        assert(right == right.drop_last().push(right.last()));
    } else {
        assert(left == right);
    }
}

/// Different random bytes make different tokens.
pub proof fn tokens_tell_random_bytes_apart(left: Seq<u8>, right: Seq<u8>)
    requires
        token_of(left) == token_of(right),
    ensures
        left == right,
{
    reveal_strlit("board_");
    assert(token_of(left).skip(6) == hex_text(left));
    assert(token_of(right).skip(6) == hex_text(right));
    lemma_hex_injective(left, right);
}

/// Once the keys with an identifier are revoked, a token of theirs is refused; a token that
/// another key has is accepted as before.
pub proof fn revoking_ends_a_token(store: StoreView, id: Seq<char>, token: Seq<char>)
    ensures
        authorized(without_key(store, id), token) <==> authorized(store, token) && exists|i: int|
            0 <= i < store.keys.len() && (#[trigger] store.keys[i]).sha256 == hash_text(token)
                && store.keys[i].id != id,
{
    let kept = store.keys.filter(other_keys(id));
    broadcast use vstd::seq_lib::group_filter_ensures;

    if exists|i: int|
        0 <= i < store.keys.len() && (#[trigger] store.keys[i]).sha256 == hash_text(token)
            && store.keys[i].id != id {
        let i = choose|i: int|
            0 <= i < store.keys.len() && (#[trigger] store.keys[i]).sha256 == hash_text(token)
                && store.keys[i].id != id;
        assert(kept.contains(store.keys[i]));
        let j = choose|j: int| 0 <= j < kept.len() && kept[j] == store.keys[i];
        assert(without_key(store, id).keys[j].sha256 == hash_text(token));
    }
    if exists|j: int| 0 <= j < kept.len() && (#[trigger] kept[j]).sha256 == hash_text(token) {
        let j = choose|j: int| 0 <= j < kept.len() && (#[trigger] kept[j]).sha256 == hash_text(
            token,
        );
        assert(other_keys(id)(kept[j]));
        crate::order::lemma_filter_source(store.keys, other_keys(id), j);
    }
}

/// A code links a client exactly where no client is linked yet, there is a code, it has not expired,
/// and what was typed is it, whatever its letter case and the white space around it. Else the answer
/// is 409 where there is no code to use, 410 where it has expired, and 401 where it is another one.
pub proof fn a_code_links_where_it_is_the_one(store: StoreView, code: Seq<char>, now: i64)
    ensures
        pair_refusal(store, code, now) is None <==> store.keys.len() == 0 && (store.pair matches Some(
            challenge,
        ) && challenge.expires_at_epoch > now && challenge.sha256 == hash_text(upper(trim(code)))),
        pair_refusal(store, code, now) matches Some(error) ==> error.status == if store.keys.len()
            > 0 || store.pair is None {
            409int
        } else if store.pair->0.expires_at_epoch <= now {
            410
        } else {
            401
        },
{
}

/// A client that is linked gets the token of the only key, under the server's own identifier, and
/// the code is gone.
pub proof fn a_linked_client_gets_the_first_key(
    before: StoreView,
    code: Seq<char>,
    base_url: Seq<char>,
    random: Result<Seq<u8>, Seq<char>>,
    now: i64,
    id: u128,
    created_at: Seq<char>,
    after: StoreView,
    answer: Result<PairResponse, ApiError>,
)
    requires
        pairing(before, code, base_url, random, now, id, created_at, after, answer),
    ensures
        answer is Ok <==> pair_refusal(before, code, now) is None && random is Ok,
        answer matches Ok(response) ==> {
            &&& response.server_id@ == before.server_id
            &&& response.base_url@ == base_url
            &&& response.name@ == "board"@
            &&& after.keys.len() == 1
            &&& after.keys[0].id == hyphenated(id)
            &&& after.keys[0].sha256 == hash_text(response.token@)
            &&& after.keys[0].created_at == created_at
            &&& after.pair is None
            &&& after.server_id == before.server_id
        },
        answer is Err ==> after == before,
{
}

/// A new key is added behind those that are there, and nothing else of the store changes; without
/// random bytes none is made.
pub proof fn a_new_key_comes_in_addition(
    before: StoreView,
    random: Result<Seq<u8>, Seq<char>>,
    id: u128,
    created_at: Seq<char>,
    after: StoreView,
    answer: Result<MintKeyResponse, ApiError>,
)
    requires
        minting(before, random, id, created_at, after, answer),
    ensures
        answer is Ok <==> random is Ok,
        answer matches Ok(response) ==> {
            &&& response.id@ == hyphenated(id)
            &&& after.keys.len() == before.keys.len() + 1
            &&& after.keys.take(before.keys.len() as int) == before.keys
            &&& after.keys.last().id == response.id@
            &&& after.keys.last().sha256 == hash_text(response.token@)
            &&& after.keys.last().created_at == created_at
        },
        answer is Err ==> after == before,
        after.pair == before.pair,
        after.server_id == before.server_id,
{
    if answer is Ok {
        assert(after.keys.take(before.keys.len() as int) == before.keys);
    }
}

/// Revoking takes away exactly the keys with the identifier; without one the answer is 404 and
/// nothing changes.
pub proof fn revoking_takes_the_key_away(
    before: StoreView,
    id: Seq<char>,
    after: StoreView,
    answer: Result<(), ApiError>,
    key: KeyView,
)
    requires
        revoking(before, id, after, answer),
    ensures
        after.keys.contains(key) <==> before.keys.contains(key) && key.id != id,
        answer is Ok <==> exists|i: int| 0 <= i < before.keys.len() && (#[trigger] before.keys[i]).id
            == id,
        answer matches Err(error) ==> error.status == 404 && after == before,
        after.pair == before.pair,
        after.server_id == before.server_id,
{
    crate::order::lemma_filter_has(before.keys, other_keys(id), key);
    if answer is Err {
        assert forall|i: int| 0 <= i < before.keys.len() implies other_keys(id)(
            #[trigger] before.keys[i],
        ) by {
            assert(before.keys[i].id != id);
        }
        crate::order::lemma_filter_all(before.keys, other_keys(id));
    }
}

/// A token is accepted exactly where it begins as tokens do, takes at least twenty bytes, and its
/// hash is that of some key; whose key it is and when that was made makes no difference. A request
/// is accepted exactly where its header carries such a token.
pub proof fn a_token_of_a_key_is_accepted(store: StoreView, token: Seq<char>, header: Seq<char>)
    ensures
        authorized(store, token) <==> begins_with(token, "board_"@) && crate::text::utf8_len(token)
            >= 20 && holds(store, hash_text(token)),
        carries_key(store, Some("Bearer "@ + token)) <==> authorized(store, token),
        !begins_with(header, "Bearer "@) ==> !carries_key(store, Some(header)),
        !carries_key(store, None),
{
    let start = "Bearer "@;
    let whole = start + token;
    assert(whole.take(start.len() as int) == start);
    assert(whole.skip(start.len() as int) == token);
}

/// The bytes of a token are written one after the other, each as two lower-case hexadecimal digits.
pub proof fn bytes_are_written_as_two_digits(bytes: Seq<u8>, k: int)
    requires
        0 <= k < bytes.len(),
    ensures
        hex_text(bytes).len() == 2 * bytes.len(),
        hex_text(bytes)[2 * k] == hex_digit(bytes[k] as int / 16),
        hex_text(bytes)[2 * k + 1] == hex_digit(bytes[k] as int % 16),
        hex_digit(9) == '9',
        hex_digit(10) == 'a',
        hex_digit(15) == 'f',
        hex_digit(0) == '0',
    decreases bytes.len(),
{
    lemma_hex_len(bytes);
    lemma_hex_len(bytes.drop_last());
    if k < bytes.len() - 1 {
        bytes_are_written_as_two_digits(bytes.drop_last(), k);
        assert(bytes.drop_last()[k] == bytes[k]);
    }
}

/// A store that is opened for the first time has no key, a code, and an identifier of its own. One
/// that is there keeps its keys and its identifier; a code that still works is kept as it is and not
/// shown again, and a new one is made exactly where no client is linked and no code works.
pub proof fn opening_keeps_what_is_there(
    existing: Option<StoreView>,
    random: Seq<u8>,
    message: Seq<char>,
    fresh_id: u128,
    now: i64,
)
    ensures
        opening(existing, Ok(random), fresh_id, now) matches Ok((store, code)) && {
            &&& existing matches Some(before) ==> store.keys == before.keys && store.server_id
                == before.server_id
            &&& existing is None ==> store.keys.len() == 0 && store.server_id == hyphenated(fresh_id)
                && code is Some
            &&& code is Some <==> store.keys.len() == 0 && !(existing matches Some(before)
                && before.pair matches Some(challenge) && challenge.expires_at_epoch > now)
            &&& code is None ==> existing == Some(store)
            &&& code matches Some(shown) ==> shown == pair_code(random) && (
            store.pair matches Some(challenge) && challenge.sha256 == hash_text(shown)
                && challenge.expires_at_epoch == if now <= i64::MAX - 900 {
                now + 900
            } else {
                i64::MAX as int
            })
        },
        opening(existing, Err(message), fresh_id, now) is Err <==> {
            opening(existing, Ok(random), fresh_id, now) matches Ok((_, Some(_)))
        },
        opening(existing, Err(message), fresh_id, now) matches Err(said) ==> said == message,
{
}

/// Each random byte chooses one character of a pairing code, and bytes that differ modulo 32 choose
/// different ones.
pub proof fn each_byte_chooses_a_character(left: Seq<u8>, right: Seq<u8>, k: int)
    requires
        0 <= k < left.len(),
        left.len() == right.len(),
    ensures
        pair_code(left).len() == left.len(),
        pair_code(left)[k] == pair_code(right)[k] <==> left[k] % 32 == right[k] % 32,
{
    reveal_strlit("ABCDEFGHJKLMNPQRSTUVWXYZ23456789");
    let alphabet = PAIR_ALPHABET@;
    let a = left[k] as int % 32;
    let b = right[k] as int % 32;
    assert(pair_code(left)[k] == alphabet[a]);
    assert(pair_code(right)[k] == alphabet[b]);
    assert(left[k] % 32 == a && right[k] % 32 == b);
    if a < b {
        assert(alphabet[a] != alphabet[b]);
    }
}

/// A request goes on exactly where its header carries, behind the word `Bearer`, a token of one of
/// the keys; any other is refused.
pub proof fn only_a_token_of_a_key_gets_through(
    manager: &AuthManager,
    header: Option<&str>,
    token: Seq<char>,
    answer: Result<(), ApiError>,
)
    requires
        call_ensures(AuthManager::check_header, (manager, header), answer),
    ensures
        header is None ==> answer is Err,
        header matches Some(value) && value@ == "Bearer "@ + token ==> (answer is Ok
            <==> begins_with(token, "board_"@) && crate::text::utf8_len(token) >= 20 && exists|
            k: int,
        |
            0 <= k < manager.store@.keys.len() && (#[trigger] manager.store@.keys[k]).sha256
                == hash_text(token)),
        header matches Some(value) && !begins_with(value@, "Bearer "@) ==> answer is Err,
        answer matches Err(error) ==> error@.status == 401 && error@.code == "unauthorized"@,
{
    if let Some(value) = header {
        if value@ == "Bearer "@ + token {
            assert(value@.skip("Bearer "@.len() as int) == token);
            assert(value@.take("Bearer "@.len() as int) == "Bearer "@);
        }
    }
}

/// A key that was revoked is gone, the others stay, and nothing else changes.
pub proof fn a_revoked_key_is_gone(
    manager: &mut AuthManager,
    id: &str,
    answer: Result<(), ApiError>,
    key: KeyView,
)
    requires
        call_ensures(AuthManager::revoke, (manager, id), answer),
    ensures
        final(manager).store@.keys.contains(key) <==> old(manager).store@.keys.contains(key)
            && key.id != id@,
        final(manager).store@.server_id == old(manager).store@.server_id,
        final(manager).store@.pair == old(manager).store@.pair,
        old(manager).store@.keys.contains(key) && key.id == id@ ==> answer is Ok,
        answer is Ok ==> final(manager).store@.keys.len() < old(manager).store@.keys.len(),
        answer matches Err(error) ==> error@.status == 404 && final(manager).store@ == old(manager).store@,
{
    let before = old(manager).store@;
    crate::order::lemma_filter_has(before.keys, other_keys(id@), key);
    lemma_filter_len_of_ids(before.keys, id@);
    if !has_key(before, id@) {
        crate::order::lemma_filter_all(before.keys, other_keys(id@));
    }
}

/// Fewer keys are left where one of them has the identifier.
proof fn lemma_filter_len_of_ids(keys: Seq<KeyView>, id: Seq<char>)
    ensures
        keys.filter(other_keys(id)).len() <= keys.len(),
        (exists|k: int| 0 <= k < keys.len() && (#[trigger] keys[k]).id == id) ==> keys.filter(
            other_keys(id),
        ).len() < keys.len(),
    decreases keys.len(),
{
    reveal(Seq::filter);
    if keys.len() > 0 {
        let shorter = keys.drop_last();
        lemma_filter_len_of_ids(shorter, id);
        if exists|k: int| 0 <= k < keys.len() && (#[trigger] keys[k]).id == id {
            let k = choose|k: int| 0 <= k < keys.len() && (#[trigger] keys[k]).id == id;
            if k < shorter.len() {
                assert(shorter[k].id == id);
            }
        }
    }
}

} // verus!
