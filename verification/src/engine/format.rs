//! The on-disk volume header: the wrapped master key, the brute-force lockout
//! policy, the framing of the header area and the plan of in-place encryption.
use crate::engine::crypto::generate_salt;
use crate::engine::primitives::{
    aead_error_text, chacha20poly1305_decrypt, chacha20poly1305_encrypt, chacha20poly1305_len_ok,
    chacha20poly1305_open, chacha20poly1305_seal,
};
use crate::engine::text::{decimal_text, u64_to_text};
use crate::engine::{size_mismatch_message, unix_time_now, CrossCryptError, EncryptionConfig, VolumeStatus};
use vstd::arithmetic::power2::pow2;
use vstd::prelude::*;

verus! {

/// Magic number that identifies a volume of this library: `b"CCRYPT01"`.
pub const CROSSCRYPT_MAGIC: [u8; 8] = [0x43, 0x43, 0x52, 0x59, 0x50, 0x54, 0x30, 0x31];

/// Size of the header area.
pub const HEADER_SIZE: usize = 1024 * 1024;

/// Size of the superblock area that follows the header.
pub const SUPERBLOCK_SIZE: usize = 16 * 1024 * 1024;

/// Sector size for encryption.
pub const SECTOR_SIZE: usize = 4096;

/// Failed password attempts after which the volume locks.
pub const MAX_PASSWORD_ATTEMPTS: u32 = 3;

/// Failed password attempts after which the volume is wiped.
pub const MAX_ATTEMPTS_BEFORE_WIPE: u32 = 10;

/// How long a lock lasts, in seconds.
pub const LOCK_DURATION_SECS: u64 = 300;

/// Where the encrypted data area starts: after the header and the superblock.
pub const DATA_START: u64 = 17 * 1024 * 1024;

/// Size of the chunks in-place encryption reads, encrypts and writes back.
pub const ENCRYPT_CHUNK_SIZE: usize = 1024 * 1024;

/// Size of a header's salt.
pub const HEADER_SALT_SIZE: usize = 32;

/// Size of a header's master-key nonce.
pub const HEADER_NONCE_SIZE: usize = 12;

/// Size of a header's reserved area.
pub const HEADER_RESERVED_SIZE: usize = 256;

/// The volume header stored at the start of the device.
#[derive(Debug, Clone)]
pub struct VolumeHeader {
    pub magic: [u8; 8],
    pub version: u32,
    pub config: EncryptionConfig,
    pub salt: Vec<u8>,
    pub encrypted_master_key: Vec<u8>,
    pub master_key_nonce: Vec<u8>,
    pub attempt_count: u32,
    /// Unix time until which the volume stays locked.
    pub locked_until: Option<u64>,
    pub wipe_triggered: bool,
    pub creation_time: u64,
    pub flags: u32,
    pub reserved: Vec<u8>,
}

/// The superblock that follows the header: progress of in-place encryption and
/// the journal's place.
#[derive(Debug, Clone)]
pub struct VolumeSuperblock {
    pub header_checksum: [u8; 32],
    /// Last encrypted sector.
    pub encryption_checkpoint: u64,
    pub total_sectors: u64,
    pub flags: u32,
    pub journal_start: u64,
    pub journal_size: u64,
    pub reserved: Vec<u8>,
}

/// Whether a header is locked at Unix time `now`.
pub open spec fn locked_at(h: VolumeHeader, now: u64) -> bool {
    match h.locked_until {
        Some(until) => now < until,
        None => false,
    }
}

/// Whether a header's lock has run out at Unix time `now` (a header without a
/// lock counts as run out).
pub open spec fn lock_expired_at(h: VolumeHeader, now: u64) -> bool {
    match h.locked_until {
        Some(until) => now >= until,
        None => true,
    }
}

/// The header with its lock and attempt count cleared.
pub open spec fn cleared(h: VolumeHeader) -> VolumeHeader {
    VolumeHeader { locked_until: None, attempt_count: 0, ..h }
}

/// The header locked for `secs` seconds from `now`.
pub open spec fn locked_from(h: VolumeHeader, now: u64, secs: u64) -> VolumeHeader {
    VolumeHeader { locked_until: Some((now + secs) as u64), ..h }
}

/// The header with its failed-attempt count set to `count`.
pub open spec fn with_count(h: VolumeHeader, count: u32) -> VolumeHeader {
    VolumeHeader { attempt_count: count, ..h }
}

/// The header with its wipe triggered and `slot` in its key slot.
pub open spec fn wiped(h: VolumeHeader, slot: Vec<u8>) -> VolumeHeader {
    VolumeHeader { wipe_triggered: true, encrypted_master_key: slot, ..h }
}

/// `after` is `before` wiped: the wipe is triggered and the key slot is
/// cleared, so that no key opens the master key again; nothing else changes.
pub open spec fn wiped_from(before: VolumeHeader, after: VolumeHeader) -> bool {
    &&& after == wiped(before, after.encrypted_master_key)
    &&& after.encrypted_master_key@.len() == 0
}

/// `after` is `before` locked for `secs` seconds from some reading of the clock.
pub open spec fn locked_by_clock(after: VolumeHeader, before: VolumeHeader, secs: u64) -> bool {
    exists|now: u64| now + secs <= u64::MAX && after == #[trigger] locked_from(before, now, secs)
}

/// Setting a lock of `secs` seconds with the clock reading `now`: the lock is
/// set exactly when its end fits in a `u64`, and then it runs from `now`;
/// otherwise the header stays as it was.
pub open spec fn lock_set_at(before: VolumeHeader, after: VolumeHeader, now: u64, secs: u64, set: bool) -> bool {
    &&& set == (now + secs <= u64::MAX)
    &&& if set {
        after == locked_from(before, now, secs)
    } else {
        after == before
    }
}

/// How long the `n`-th failed attempt locks the volume: five minutes at the
/// third, and twice as long at each attempt after it (exponential backoff).
pub open spec fn lock_secs(n: nat) -> nat
    decreases n,
{
    if n <= MAX_PASSWORD_ATTEMPTS {
        LOCK_DURATION_SECS as nat
    } else {
        2 * lock_secs((n - 1) as nat)
    }
}

/// The longest lock a failed attempt sets: that of the ninth, 5 min * 2^6.
pub const MAX_ATTEMPT_LOCK_SECS: u64 = 19_200;

/// One failed password attempt at Unix time `now` turns `before` into `after`:
/// the count grows by one; from the tenth attempt on the header is wiped, from
/// the third to the ninth the volume is locked for `lock_secs` of the count.
pub open spec fn attempt_at(before: VolumeHeader, after: VolumeHeader, now: u64) -> bool {
    let n = before.attempt_count + 1;
    let counted = with_count(before, n as u32);
    if n >= MAX_ATTEMPTS_BEFORE_WIPE {
        wiped_from(counted, after)
    } else if n >= MAX_PASSWORD_ATTEMPTS {
        after == locked_from(counted, now, lock_secs(n as nat) as u64)
    } else {
        after == counted
    }
}

/// One failed attempt with the clock reading `now`: as `attempt_at`, except
/// that a lock whose end would not fit in a `u64` is not set.
pub open spec fn attempt_by_clock(before: VolumeHeader, after: VolumeHeader, now: u64) -> bool {
    let n = before.attempt_count + 1;
    let counted = with_count(before, n as u32);
    if n >= MAX_ATTEMPTS_BEFORE_WIPE {
        wiped_from(counted, after)
    } else if n >= MAX_PASSWORD_ATTEMPTS {
        if now + lock_secs(n as nat) <= u64::MAX {
            after == locked_from(counted, now, lock_secs(n as nat) as u64)
        } else {
            after == counted
        }
    } else {
        after == counted
    }
}

/// How long the `attempts`-th failed attempt locks the volume (see `lock_secs`).
pub fn attempt_lock_secs(attempts: u32) -> (secs: u64)
    requires
        attempts < MAX_ATTEMPTS_BEFORE_WIPE,
    ensures
        secs == lock_secs(attempts as nat),
        secs <= MAX_ATTEMPT_LOCK_SECS,
{
    proof {
        reveal_with_fuel(lock_secs, 10);
    }
    if attempts <= 3 {
        300
    } else if attempts == 4 {
        600
    } else if attempts == 5 {
        1200
    } else if attempts == 6 {
        2400
    } else if attempts == 7 {
        4800
    } else if attempts == 8 {
        9600
    } else {
        19_200
    }
}

/// Step `i` of a run of headers is one failed attempt at Unix time `now`.
pub open spec fn attempt_step(hs: Seq<VolumeHeader>, i: int, now: u64) -> bool {
    attempt_at(hs[i], hs[i + 1], now)
}

/// Each header of `hs` after the first is the one before it after a failed
/// attempt at Unix time `now`.
pub open spec fn attempt_run(hs: Seq<VolumeHeader>, now: u64) -> bool {
    forall|i: int| 0 <= i < hs.len() - 1 ==> #[trigger] attempt_step(hs, i, now)
}

/// The master key a header gives up to a key-encryption key, if the key opens
/// it. A key slot shorter than the cipher's 16-byte tag opens to nothing.
pub open spec fn opened_master_key(h: VolumeHeader, kek: Seq<u8>) -> Option<Seq<u8>> {
    if h.encrypted_master_key@.len() < 16 {
        None
    } else {
        chacha20poly1305_open(kek.subrange(0, 32), h.master_key_nonce@, h.encrypted_master_key@)
    }
}

/// The header with a new wrapped master key and nothing else changed.
pub open spec fn with_encrypted_key(h: VolumeHeader, encrypted: Vec<u8>) -> VolumeHeader {
    VolumeHeader { encrypted_master_key: encrypted, ..h }
}

/// Whether the text `p` occurs in `s`.
pub open spec fn contains_chars(s: Seq<char>, p: Seq<char>) -> bool {
    exists|i: int| 0 <= i && i + p.len() <= s.len() && #[trigger] s.subrange(i, i + p.len()) == p
}

/// Whether `pat` occurs in `s` as a run of consecutive characters.
pub fn text_contains(s: &str, pat: &str) -> (b: bool)
    ensures
        b == contains_chars(s@, pat@),
{
    let n = s.unicode_len();
    let m = pat.unicode_len();
    let mut i: usize = 0;
    while i <= n && m <= n - i
        invariant
            n == s@.len(),
            m == pat@.len(),
            forall|j: int| 0 <= j < i && j + m <= n ==> #[trigger] s@.subrange(j, j + m) != pat@,
        decreases n + 1 - i,
    {
        let mut same = true;
        let mut k: usize = 0;
        while k < m
            invariant
                n == s@.len(),
                m == pat@.len(),
                i + m <= n,
                0 <= k <= m,
                same <==> forall|t: int| 0 <= t < k ==> s@[i + t] == pat@[t],
            decreases m - k,
        {
            if s.get_char(i + k) != pat.get_char(k) {
                same = false;
            }
            k = k + 1;
        }
        if same {
            assert(s@.subrange(i as int, i + m) =~= pat@);
            return true;
        }
        assert(s@.subrange(i as int, i + m) != pat@) by {
            let t = choose|t: int| 0 <= t < m && s@[i + t] != pat@[t];
            assert(s@.subrange(i as int, i + m)[t] == s@[i + t]);
        }
        i = i + 1;
    }
    assert(!contains_chars(s@, pat@)) by {
        if contains_chars(s@, pat@) {
            let j = choose|j: int|
                0 <= j && j + pat@.len() <= s@.len() && #[trigger] s@.subrange(j, j + pat@.len())
                    == pat@;
            assert(j < i);
        }
    }
    false
}

/// The status a header read gives: a readable header whose wipe was triggered
/// counts as not encrypted; a device without the magic is not encrypted; other
/// errors stand.
pub open spec fn status_of_read(read: Result<VolumeHeader, CrossCryptError>) -> Result<VolumeStatus, CrossCryptError> {
    match read {
        Ok(h) => if h.wipe_triggered {
            Ok(VolumeStatus::NotEncrypted)
        } else {
            Ok(VolumeStatus::Encrypted)
        },
        Err(CrossCryptError::Crypto(msg)) => if contains_chars(msg@, "Not a CrossCrypt"@) {
            Ok(VolumeStatus::NotEncrypted)
        } else {
            Err(CrossCryptError::Crypto(msg))
        },
        Err(e) => Err(e),
    }
}

impl VolumeHeader {
    /// A fresh header for `config`: magic, version 1, random salt and nonce, no
    /// wrapped key yet, no failed attempts, no lock, and the creation time.
    pub fn new(config: &EncryptionConfig) -> (h: Self)
        ensures
            h.magic@ == CROSSCRYPT_MAGIC@,
            h.version == 1,
            h.config@ == config@,
            h.salt@.len() == HEADER_SALT_SIZE,
            h.encrypted_master_key@.len() == 0,
            h.master_key_nonce@.len() == HEADER_NONCE_SIZE,
            h.attempt_count == 0,
            h.locked_until is None,
            !h.wipe_triggered,
            h.flags == 0,
            h.reserved@ == Seq::new(HEADER_RESERVED_SIZE as nat, |i: int| 0u8),
    {
        let reserved = vec![0u8; HEADER_RESERVED_SIZE];
        assert(reserved@ =~= Seq::new(HEADER_RESERVED_SIZE as nat, |i: int| 0u8));
        VolumeHeader {
            magic: CROSSCRYPT_MAGIC,
            version: 1,
            config: config.clone(),
            salt: generate_salt(HEADER_SALT_SIZE),
            encrypted_master_key: Vec::new(),
            master_key_nonce: generate_salt(HEADER_NONCE_SIZE),
            attempt_count: 0,
            locked_until: None,
            wipe_triggered: false,
            creation_time: unix_time_now(),
            flags: 0,
            reserved,
        }
    }

    /// Wraps the master key with ChaCha20-Poly1305 under the first 32 bytes of
    /// the key-encryption key and the header's nonce. Opening the result with the
    /// same key-encryption key gives the master key back.
    pub fn encrypt_master_key(&mut self, master_key: &[u8], kek: &[u8]) -> (r: Result<(), CrossCryptError>)
        requires
            kek@.len() >= 32,
            old(self).master_key_nonce@.len() == HEADER_NONCE_SIZE,
        ensures
            r is Ok <==> chacha20poly1305_len_ok(master_key@.len()),
            r is Ok ==> *final(self) == with_encrypted_key(*old(self), final(self).encrypted_master_key),
            r is Ok ==> final(self).encrypted_master_key@ == chacha20poly1305_seal(
                kek@.subrange(0, 32),
                old(self).master_key_nonce@,
                master_key@,
            ),
            r is Ok ==> opened_master_key(*final(self), kek@) == Some(master_key@),
            r is Ok ==> final(self).encrypted_master_key@.len() == master_key@.len() + 16,
            r matches Err(e) ==> e is Crypto && *final(self) == *old(self),
    {
        let key = crate::engine::bytes::copy_range(kek, 0, 32);
        assert(key@ == kek@.subrange(0, 32));
        match chacha20poly1305_encrypt(key.as_slice(), self.master_key_nonce.as_slice(), master_key) {
            Ok(c) => {
                self.encrypted_master_key = c;
                Ok(())
            },
            Err(e) => {
                let mut msg = String::from_str("Encryption failed: ");
                let text = aead_error_text(&e);
                msg.append(text.as_str());
                Err(CrossCryptError::Crypto(msg))
            },
        }
    }

    /// Unwraps the master key with the key-encryption key; a key that does not
    /// open it is an invalid password.
    pub fn decrypt_master_key(&self, kek: &[u8]) -> (r: Result<Vec<u8>, CrossCryptError>)
        requires
            kek@.len() >= 32,
            self.master_key_nonce@.len() == HEADER_NONCE_SIZE,
        ensures
            match opened_master_key(*self, kek@) {
                Some(key) => r matches Ok(k) && k@ == key,
                None => r matches Err(e) && e is InvalidPassword,
            },
    {
        let key = crate::engine::bytes::copy_range(kek, 0, 32);
        assert(key@ == kek@.subrange(0, 32));
        match chacha20poly1305_decrypt(
            key.as_slice(),
            self.master_key_nonce.as_slice(),
            self.encrypted_master_key.as_slice(),
        ) {
            Ok(k) => Ok(k),
            Err(_) => Err(CrossCryptError::InvalidPassword),
        }
    }

    /// Whether the header is locked at Unix time `now`.
    pub fn is_locked_at(&self, now: u64) -> (r: bool)
        ensures
            r == locked_at(*self, now),
    {
        match self.locked_until {
            Some(until) => now < until,
            None => false,
        }
    }

    /// Whether the header is locked now, by the system clock.
    pub fn is_locked(&self) -> (r: bool)
        ensures
            exists|now: u64| r == locked_at(*self, now),
            self.locked_until is None ==> !r,
    {
        let now = unix_time_now();
        self.is_locked_at(now)
    }

    /// Whether the header's lock has run out at Unix time `now`.
    pub fn lock_expired_at(&self, now: u64) -> (r: bool)
        ensures
            r == lock_expired_at(*self, now),
    {
        match self.locked_until {
            Some(until) => now >= until,
            None => true,
        }
    }

    /// Whether the header's lock has run out now, by the system clock.
    pub fn lock_expired(&self) -> (r: bool)
        ensures
            exists|now: u64| r == lock_expired_at(*self, now),
            self.locked_until is None ==> r,
    {
        let now = unix_time_now();
        self.lock_expired_at(now)
    }

    /// Clears the lock and the count of failed attempts.
    pub fn clear_lock(&mut self)
        ensures
            *final(self) == cleared(*old(self)),
    {
        self.locked_until = None;
        self.attempt_count = 0;
    }

    /// Locks the header for `duration_secs` seconds from Unix time `now`.
    pub fn set_lock_at(&mut self, now: u64, duration_secs: u64)
        requires
            now + duration_secs <= u64::MAX,
        ensures
            *final(self) == locked_from(*old(self), now, duration_secs),
    {
        self.locked_until = Some(now + duration_secs);
    }

    /// Locks the header for `duration_secs` seconds from now, by the system
    /// clock. Returns false, and leaves the header as it was, when the lock's end
    /// would not fit in a `u64`.
    pub fn set_lock(&mut self, duration_secs: u64) -> (set: bool)
        ensures
            exists|now: u64|
                #[trigger] lock_set_at(*old(self), *final(self), now, duration_secs, set),
            set ==> locked_by_clock(*final(self), *old(self), duration_secs),
            !set ==> *final(self) == *old(self),
    {
        let now = unix_time_now();
        if now <= u64::MAX - duration_secs {
            self.set_lock_at(now, duration_secs);
            assert(lock_set_at(*old(self), *self, now, duration_secs, true));
            true
        } else {
            assert(lock_set_at(*old(self), *self, now, duration_secs, false));
            false
        }
    }

    /// Wipes the header: triggers the wipe and clears the key slot, so that no
    /// password opens the master key again.
    fn wipe(&mut self)
        ensures
            wiped_from(*old(self), *final(self)),
    {
        self.wipe_triggered = true;
        self.encrypted_master_key = Vec::new();
    }

    /// Records a failed password attempt at Unix time `now`. From the tenth
    /// attempt on the header is wiped (its key slot cleared) and an error
    /// returned; from the third to the ninth the volume is locked, for five
    /// minutes doubled at each attempt after the third.
    pub fn increment_attempt_at(&mut self, now: u64) -> (r: Result<(), CrossCryptError>)
        requires
            old(self).attempt_count < u32::MAX,
            MAX_PASSWORD_ATTEMPTS <= old(self).attempt_count + 1 < MAX_ATTEMPTS_BEFORE_WIPE ==> now
                + lock_secs((old(self).attempt_count + 1) as nat) <= u64::MAX,
        ensures
            attempt_at(*old(self), *final(self), now),
            r is Ok <==> old(self).attempt_count + 1 < MAX_ATTEMPTS_BEFORE_WIPE,
            r matches Err(e) ==> (e matches CrossCryptError::Crypto(m) && m@
                == "Too many failed attempts. Volume will be wiped."@),
    {
        self.attempt_count = self.attempt_count + 1;
        if self.attempt_count >= MAX_ATTEMPTS_BEFORE_WIPE {
            self.wipe();
            return Err(
                CrossCryptError::Crypto(
                    String::from_str("Too many failed attempts. Volume will be wiped."),
                ),
            );
        }
        if self.attempt_count >= MAX_PASSWORD_ATTEMPTS {
            let secs = attempt_lock_secs(self.attempt_count);
            self.set_lock_at(now, secs);
        }
        Ok(())
    }

    /// Records a failed password attempt now, by the system clock: the
    /// attempt-count rules of `increment_attempt_at`, with the lock's start taken
    /// from the clock (no lock is set if its end would not fit in a `u64`).
    pub fn increment_attempt(&mut self) -> (r: Result<(), CrossCryptError>)
        requires
            old(self).attempt_count < u32::MAX,
        ensures
            exists|now: u64| #[trigger] attempt_by_clock(*old(self), *final(self), now),
            final(self).attempt_count == old(self).attempt_count + 1,
            r is Ok <==> old(self).attempt_count + 1 < MAX_ATTEMPTS_BEFORE_WIPE,
            r matches Err(e) ==> (e matches CrossCryptError::Crypto(m) && m@
                == "Too many failed attempts. Volume will be wiped."@),
    {
        let now = unix_time_now();
        self.record_attempt_at(now)
    }

    /// Records a failed password attempt with the clock reading `now`: the
    /// rules of `increment_attempt_at`, except that a lock whose end would not
    /// fit in a `u64` is not set.
    pub fn record_attempt_at(&mut self, now: u64) -> (r: Result<(), CrossCryptError>)
        requires
            old(self).attempt_count < u32::MAX,
        ensures
            attempt_by_clock(*old(self), *final(self), now),
            final(self).attempt_count == old(self).attempt_count + 1,
            r is Ok <==> old(self).attempt_count + 1 < MAX_ATTEMPTS_BEFORE_WIPE,
            r matches Err(e) ==> (e matches CrossCryptError::Crypto(m) && m@
                == "Too many failed attempts. Volume will be wiped."@),
    {
        let ghost before = *self;
        self.attempt_count = self.attempt_count + 1;
        if self.attempt_count >= MAX_ATTEMPTS_BEFORE_WIPE {
            self.wipe();
            return Err(
                CrossCryptError::Crypto(
                    String::from_str("Too many failed attempts. Volume will be wiped."),
                ),
            );
        }
        if self.attempt_count >= MAX_PASSWORD_ATTEMPTS {
            let secs = attempt_lock_secs(self.attempt_count);
            if now <= u64::MAX - secs {
                self.set_lock_at(now, secs);
            }
        }
        Ok(())
    }
}

/// A lock makes a header locked and not run out from its start until it ends,
/// and run out and unlocked from its end on.
pub proof fn lemma_lock_window(h: VolumeHeader, start: u64, secs: u64, t: u64)
    requires
        start + secs <= u64::MAX,
    ensures
        start <= t < start + secs ==> locked_at(locked_from(h, start, secs), t)
            && !lock_expired_at(locked_from(h, start, secs), t),
        t >= start + secs ==> !locked_at(locked_from(h, start, secs), t) && lock_expired_at(
            locked_from(h, start, secs),
            t,
        ),
{
}

/// At any time a header is locked exactly when its lock has not run out.
pub proof fn lemma_locked_iff_not_expired(h: VolumeHeader, now: u64)
    ensures
        locked_at(h, now) == !lock_expired_at(h, now),
{
}

/// A cleared header is never locked and has no failed attempts.
pub proof fn lemma_cleared_unlocked(h: VolumeHeader, now: u64)
    ensures
        !locked_at(cleared(h), now),
        cleared(h).attempt_count == 0,
{
}

/// A run of failed attempts keeps its steps on every prefix.
proof fn lemma_run_prefix(hs: Seq<VolumeHeader>, now: u64, k: int)
    requires
        attempt_run(hs, now),
        1 <= k <= hs.len(),
    ensures
        attempt_run(hs.subrange(0, k), now),
{
    let p = hs.subrange(0, k);
    assert forall|i: int| 0 <= i < p.len() - 1 implies #[trigger] attempt_step(p, i, now) by {
        assert(attempt_step(hs, i, now));
    }
}

/// From a header with no failed attempts, a run of `k` failed attempts at the
/// same time counts `k`; three to nine leave it locked from then, for five
/// minutes after the third and twice as long after each further one, with its
/// key slot as it was and not wiped; ten or more wipe it and clear its key slot.
pub proof fn lemma_lockout_policy(hs: Seq<VolumeHeader>, now: u64, k: nat)
    requires
        hs.len() == k + 1,
        attempt_run(hs, now),
        hs[0].attempt_count == 0,
        !hs[0].wipe_triggered,
        k <= 1000,
        now <= u64::MAX - MAX_ATTEMPT_LOCK_SECS,
    ensures
        hs[k as int].attempt_count == k,
        k == MAX_PASSWORD_ATTEMPTS ==> lock_secs(k) == LOCK_DURATION_SECS,
        MAX_PASSWORD_ATTEMPTS < k ==> lock_secs(k) == 2 * lock_secs((k - 1) as nat),
        MAX_PASSWORD_ATTEMPTS <= k < MAX_ATTEMPTS_BEFORE_WIPE ==> hs[k as int].locked_until == Some(
            (now + lock_secs(k)) as u64,
        ) && locked_at(hs[k as int], now),
        k < MAX_ATTEMPTS_BEFORE_WIPE ==> !hs[k as int].wipe_triggered
            && hs[k as int].encrypted_master_key == hs[0].encrypted_master_key,
        k >= MAX_ATTEMPTS_BEFORE_WIPE ==> hs[k as int].wipe_triggered
            && hs[k as int].encrypted_master_key@.len() == 0,
    decreases k,
{
    if k > 0 {
        lemma_run_prefix(hs, now, k as int);
        let p = hs.subrange(0, k as int);
        lemma_lockout_policy(p, now, (k - 1) as nat);
        assert(attempt_step(hs, k - 1, now));
        assert(p[k - 1] == hs[k - 1]);
    }
    if MAX_PASSWORD_ATTEMPTS <= k < MAX_ATTEMPTS_BEFORE_WIPE {
        assert(0 < lock_secs(k) <= MAX_ATTEMPT_LOCK_SECS) by {
            reveal_with_fuel(lock_secs, 10);
        }
    }
}

/// The lock of the `n`-th failed attempt, from the third on, is five minutes
/// doubled once for each attempt after the third: `300 * 2^(n - 3)` seconds.
pub proof fn lemma_lock_secs_doubles(n: nat)
    requires
        n >= 3,
    ensures
        lock_secs(n) == 300 * pow2((n - 3) as nat),
    decreases n,
{
    if n == 3 {
        assert(pow2(0) == 1) by {
            vstd::arithmetic::power2::lemma2_to64();
        }
    } else {
        lemma_lock_secs_doubles((n - 1) as nat);
        vstd::arithmetic::power2::lemma_pow2_unfold((n - 3) as nat);
    }
}

/// With the clock's reading `now`, a failed attempt whose lock ends within a
/// `u64` does exactly what a failed attempt at `now` does.
pub proof fn lemma_clock_attempt_is_attempt(before: VolumeHeader, after: VolumeHeader, now: u64)
    requires
        attempt_by_clock(before, after, now),
        now + lock_secs((before.attempt_count + 1) as nat) <= u64::MAX,
    ensures
        attempt_at(before, after, now),
{
}

/// What one failed attempt changes, with or without the clock: the count grows
/// by one. Before the tenth attempt the header is never wiped: the wipe flag,
/// the wrapped master key, its nonce, the salt, the setting and the magic stay
/// as they were; the first two attempts leave the lock alone, and the third to
/// the ninth lock the volume for `300 * 2^(n - 3)` seconds from `now` when that
/// fits in a `u64`. The tenth and every later attempt wipe it and empty the key
/// slot.
pub proof fn lemma_attempt_effects(before: VolumeHeader, after: VolumeHeader, now: u64)
    requires
        attempt_at(before, after, now) || attempt_by_clock(before, after, now),
        before.attempt_count < u32::MAX,
    ensures
        after.attempt_count == before.attempt_count + 1,
        before.attempt_count + 1 < 10 ==> {
            &&& after.wipe_triggered == before.wipe_triggered
            &&& after.encrypted_master_key == before.encrypted_master_key
            &&& after.master_key_nonce == before.master_key_nonce
            &&& after.salt == before.salt
            &&& after.config == before.config
            &&& after.magic == before.magic
        },
        before.attempt_count + 1 < 3 ==> after.locked_until == before.locked_until,
        3 <= before.attempt_count + 1 < 10 && now + 300 * pow2((before.attempt_count + 1 - 3) as nat)
            <= u64::MAX ==> after.locked_until == Some(
            (now + 300 * pow2((before.attempt_count + 1 - 3) as nat)) as u64,
        ),
        before.attempt_count + 1 >= 10 ==> after.wipe_triggered && after.encrypted_master_key@.len()
            == 0,
{
    let n = (before.attempt_count + 1) as nat;
    if n >= 3 {
        lemma_lock_secs_doubles(n);
    }
}

/// The magic is the ASCII text `CCRYPT01`.
pub proof fn lemma_magic_is_ccrypt01()
    ensures
        CROSSCRYPT_MAGIC@ == seq![
            'C' as u8,
            'C' as u8,
            'R' as u8,
            'Y' as u8,
            'P' as u8,
            'T' as u8,
            '0' as u8,
            '1' as u8,
        ],
{
    assert(CROSSCRYPT_MAGIC@ =~= seq![
        'C' as u8,
        'C' as u8,
        'R' as u8,
        'Y' as u8,
        'P' as u8,
        'T' as u8,
        '0' as u8,
        '1' as u8,
    ]);
}

/// A header carrying the magic, framed into the header area, is recognised
/// when read back: the area's first eight bytes are the magic that
/// `check_magic` accepts.
pub proof fn lemma_framed_header_recognised(h: VolumeHeader, serialized: Seq<u8>)
    requires
        h.magic@ == CROSSCRYPT_MAGIC@,
        serialized.len() <= HEADER_SIZE - 8,
    ensures
        header_area(h.magic@, serialized).subrange(0, 8) == CROSSCRYPT_MAGIC@,
{
    lemma_header_area_reads_back(h.magic@, serialized);
}

/// A lock of five minutes from `start` keeps the header locked for exactly the
/// 300 seconds from `start` and no longer.
pub proof fn lemma_five_minute_lock(h: VolumeHeader, start: u64, t: u64)
    requires
        start <= u64::MAX - 300,
    ensures
        locked_from(h, start, LOCK_DURATION_SECS).locked_until == Some((start + 300) as u64),
        locked_at(locked_from(h, start, LOCK_DURATION_SECS), t) <==> start + 300 > t,
{
}

/// The header area holding a serialized header: the magic, the serialized
/// header, then zeros up to the area's size.
pub open spec fn header_area(magic: Seq<u8>, serialized: Seq<u8>) -> Seq<u8> {
    magic + serialized + Seq::new((HEADER_SIZE - 8 - serialized.len()) as nat, |i: int| 0u8)
}

/// Reading a framed header area back gives what was framed: its first eight
/// bytes are the magic, the serialized header follows, and the rest is zero.
pub proof fn lemma_header_area_reads_back(magic: Seq<u8>, serialized: Seq<u8>)
    requires
        magic.len() == 8,
        serialized.len() <= HEADER_SIZE - 8,
    ensures
        header_area(magic, serialized).len() == HEADER_SIZE,
        header_area(magic, serialized).subrange(0, 8) == magic,
        header_area(magic, serialized).subrange(8, 8 + serialized.len() as int) == serialized,
        forall|i: int|
            8 + serialized.len() <= i < HEADER_SIZE ==> #[trigger] header_area(magic, serialized)[i]
                == 0u8,
{
    let area = header_area(magic, serialized);
    assert(area.subrange(0, 8) =~= magic);
    assert(area.subrange(8, 8 + serialized.len() as int) =~= serialized);
}

/// Frames a serialized header into the header area: the magic, the serialized
/// header, then zeros up to the area's size.
pub fn frame_header(magic: &[u8; 8], serialized: &[u8]) -> (area: Vec<u8>)
    requires
        serialized@.len() <= HEADER_SIZE - 8,
    ensures
        area@ == header_area(magic@, serialized@),
        area@.len() == HEADER_SIZE,
{
    let mut area: Vec<u8> = Vec::with_capacity(HEADER_SIZE);
    let mut i: usize = 0;
    while i < 8
        invariant
            0 <= i <= 8,
            area@ == magic@.subrange(0, i as int),
        decreases 8 - i,
    {
        area.push(magic[i]);
        i = i + 1;
        assert(area@ =~= magic@.subrange(0, i as int));
    }
    let n = serialized.len();
    let mut j: usize = 0;
    while j < n
        invariant
            0 <= j <= n,
            n == serialized@.len(),
            area@ == magic@ + serialized@.subrange(0, j as int),
        decreases n - j,
    {
        area.push(serialized[j]);
        j = j + 1;
        assert(area@ =~= magic@ + serialized@.subrange(0, j as int));
    }
    let padding = HEADER_SIZE - 8 - n;
    let mut k: usize = 0;
    while k < padding
        invariant
            0 <= k <= padding,
            padding == HEADER_SIZE - 8 - n,
            n == serialized@.len(),
            area@ == magic@ + serialized@ + Seq::new(k as nat, |i: int| 0u8),
        decreases padding - k,
    {
        area.push(0u8);
        k = k + 1;
        assert(area@ =~= magic@ + serialized@ + Seq::new(k as nat, |i: int| 0u8));
    }
    assert(serialized@.subrange(0, n as int) =~= serialized@);
    area
}

/// Checks the magic read from the start of a device.
pub fn check_magic(magic: &[u8; 8]) -> (r: Result<(), CrossCryptError>)
    ensures
        r is Ok <==> magic@ == CROSSCRYPT_MAGIC@,
        r matches Err(e) ==> (e matches CrossCryptError::Crypto(m) && m@ == "Not a CrossCrypt volume"@),
{
    let mut i: usize = 0;
    while i < 8
        invariant
            0 <= i <= 8,
            forall|j: int| 0 <= j < i ==> magic@[j] == CROSSCRYPT_MAGIC@[j],
        decreases 8 - i,
    {
        if magic[i] != CROSSCRYPT_MAGIC[i] {
            return Err(CrossCryptError::Crypto(String::from_str("Not a CrossCrypt volume")));
        }
        i = i + 1;
    }
    assert(magic@ =~= CROSSCRYPT_MAGIC@);
    Ok(())
}

/// The status a header read gives (see `status_of_read`).
pub fn check_volume_status(read: Result<VolumeHeader, CrossCryptError>) -> (r: Result<
    VolumeStatus,
    CrossCryptError,
>)
    ensures
        r == status_of_read(read),
{
    match read {
        Ok(header) => {
            if header.wipe_triggered {
                Ok(VolumeStatus::NotEncrypted)
            } else {
                Ok(VolumeStatus::Encrypted)
            }
        },
        Err(CrossCryptError::Crypto(msg)) => {
            let pattern = "Not a CrossCrypt";
            if text_contains(msg.as_str(), pattern) {
                Ok(VolumeStatus::NotEncrypted)
            } else {
                Err(CrossCryptError::Crypto(msg))
            }
        },
        Err(e) => Err(e),
    }
}

/// A device whose magic is refused reads as not encrypted: the refusal's
/// message is what the status check recognises.
pub proof fn lemma_foreign_magic_not_encrypted(m: String)
    requires
        m@ == "Not a CrossCrypt volume"@,
    ensures
        status_of_read(Err(CrossCryptError::Crypto(m))) == Ok::<VolumeStatus, CrossCryptError>(
            VolumeStatus::NotEncrypted,
        ),
{
    reveal_strlit("Not a CrossCrypt volume");
    reveal_strlit("Not a CrossCrypt");
    let p = "Not a CrossCrypt"@;
    assert(m@.subrange(0, 0 + p.len() as int) =~= p);
    assert(contains_chars(m@, p));
}

/// Whether a device holds data that is not yet a volume: an empty device holds
/// none, and a device whose header reads holds a volume.
pub fn check_existing_data(device_len: u64, read: &Result<VolumeHeader, CrossCryptError>) -> (r: bool)
    ensures
        r == (device_len != 0 && read is Err),
{
    if device_len == 0 {
        return false;
    }
    match read {
        Ok(_) => false,
        Err(_) => true,
    }
}

/// A chunk of in-place encryption: where it starts on the device, how long it
/// is, and the index of its first sector.
#[derive(Debug, Clone, Copy, PartialEq, Eq, Structural)]
pub struct EncryptionChunk {
    pub offset: u64,
    pub len: usize,
    pub start_sector: u64,
}

/// Sectors in-place encryption covers between two saved checkpoints.
pub const CHECKPOINT_SECTORS: u64 = 1000;

/// The most bytes one chunk of in-place encryption covers: a megabyte, and no
/// more than `CHECKPOINT_SECTORS` sectors, so that progress is saved at least
/// every thousand sectors.
pub open spec fn chunk_limit(sector: u32) -> int {
    if (CHECKPOINT_SECTORS as int) * (sector as int) < ENCRYPT_CHUNK_SIZE as int {
        (CHECKPOINT_SECTORS as int) * (sector as int)
    } else {
        ENCRYPT_CHUNK_SIZE as int
    }
}

/// The chunk of in-place encryption that starts at `position` of a device of
/// `end` bytes: at most `chunk_limit` bytes, its first sector numbered from the
/// start of the data area.
pub open spec fn chunk_at(position: u64, end: u64, sector: u32) -> EncryptionChunk {
    EncryptionChunk {
        offset: position,
        len: (if end - position < chunk_limit(sector) {
            end - position
        } else {
            chunk_limit(sector)
        }) as usize,
        start_sector: ((position - DATA_START) / (sector as int)) as u64,
    }
}

/// Sectors of the data area wholly before device offset `position`.
pub open spec fn sectors_before(position: u64, sector: u32) -> int {
    (position - DATA_START) / (sector as int)
}

/// The refusal of a device of `file_size` bytes that has no data area.
pub open spec fn too_small_text(file_size: u64) -> Seq<char> {
    "File too small: "@ + decimal_text(file_size) + " bytes, need at least "@ + decimal_text(
        DATA_START,
    )
}

/// Progress of in-place encryption over the data area of a device.
pub struct EncryptionCursor {
    offset: u64,
    file_size: u64,
    sector_size: u32,
}

impl EncryptionCursor {
    /// Device offset of the next chunk.
    pub closed spec fn position(&self) -> u64 {
        self.offset
    }

    /// Size of the device.
    pub closed spec fn end(&self) -> u64 {
        self.file_size
    }

    /// Sector size the chunks are numbered in.
    pub closed spec fn sector(&self) -> u32 {
        self.sector_size
    }

    /// The cursor's invariant: it lies within the data area, which is not
    /// empty; when chunks are whole sectors it stands on a sector boundary or
    /// at the end.
    pub closed spec fn wf(&self) -> bool {
        &&& DATA_START <= self.offset <= self.file_size
        &&& DATA_START < self.file_size
        &&& self.sector_size > 0
        &&& chunk_limit(self.sector_size) % (self.sector_size as int) == 0 ==> ((self.offset
            - DATA_START) as int % (self.sector_size as int) == 0 || self.offset == self.file_size)
    }

    /// Starts in-place encryption of a device of `file_size` bytes; a device no
    /// larger than the header and superblock areas is refused.
    pub fn start(file_size: u64, sector_size: u32) -> (r: Result<Self, CrossCryptError>)
        requires
            sector_size > 0 || file_size <= DATA_START,
        ensures
            r is Ok <==> file_size > DATA_START,
            r matches Ok(c) ==> c.wf() && c.position() == DATA_START && c.end() == file_size
                && c.sector() == sector_size,
            r matches Err(e) ==> (e matches CrossCryptError::Crypto(m) && m@ == too_small_text(
                file_size,
            )),
    {
        if file_size <= DATA_START {
            let mut msg = String::from_str("File too small: ");
            let size_text = u64_to_text(file_size);
            msg.append(size_text.as_str());
            msg.append(" bytes, need at least ");
            let need_text = u64_to_text(DATA_START);
            msg.append(need_text.as_str());
            return Err(CrossCryptError::Crypto(msg));
        }
        proof {
            vstd::arithmetic::div_mod::lemma_small_mod(0, sector_size as nat);
        }
        Ok(EncryptionCursor { offset: DATA_START, file_size, sector_size })
    }

    /// Picks in-place encryption up again at a saved checkpoint: the cursor
    /// stands `checkpoint` sectors into the data area. A device no larger than
    /// the header and superblock areas is refused, and so is a checkpoint past
    /// the end of the device.
    pub fn resume(file_size: u64, sector_size: u32, checkpoint: u64) -> (r: Result<Self, CrossCryptError>)
        requires
            sector_size > 0,
        ensures
            r is Ok <==> file_size > DATA_START && DATA_START + checkpoint * sector_size
                <= file_size,
            r matches Ok(c) ==> c.wf() && c.position() == DATA_START + checkpoint * sector_size
                && c.end() == file_size && c.sector() == sector_size && c.checkpoint()
                == checkpoint,
            file_size <= DATA_START ==> (r matches Err(e) && e matches CrossCryptError::Crypto(m)
                && m@ == too_small_text(file_size)),
            file_size > DATA_START && DATA_START + checkpoint * sector_size > file_size ==> (r matches Err(
                e,
            ) && e matches CrossCryptError::Crypto(m) && m@
                == "Checkpoint lies past the end of the device"@),
    {
        let mut cursor = match Self::start(file_size, sector_size) {
            Ok(c) => c,
            Err(e) => return Err(e),
        };
        let room = (file_size - DATA_START) / (sector_size as u64);
        if checkpoint > room {
            proof {
                lemma_past_room(file_size - DATA_START, sector_size as int, checkpoint as int);
            }
            return Err(CrossCryptError::Crypto(String::from_str("Checkpoint lies past the end of the device")));
        }
        proof {
            lemma_within_room(file_size - DATA_START, sector_size as int, checkpoint as int);
            vstd::arithmetic::div_mod::lemma_mod_multiples_basic(checkpoint as int, sector_size as int);
            vstd::arithmetic::div_mod::lemma_div_by_multiple(checkpoint as int, sector_size as int);
        }
        cursor.offset = DATA_START + checkpoint * (sector_size as u64);
        Ok(cursor)
    }

    /// Sectors of the data area encrypted so far: those wholly before the cursor.
    pub closed spec fn checkpoint(&self) -> int {
        sectors_before(self.offset, self.sector_size)
    }

    /// The checkpoint to save: sectors of the data area encrypted so far.
    pub fn sectors_done(&self) -> (n: u64)
        requires
            self.wf(),
        ensures
            n == self.checkpoint(),
    {
        proof {
            vstd::arithmetic::div_mod::lemma_div_is_ordered_by_denominator(
                (self.offset - DATA_START) as int,
                1,
                self.sector_size as int,
            );
        }
        (self.offset - DATA_START) / (self.sector_size as u64)
    }

    /// Size of the data area.
    pub fn data_size(&self) -> (n: u64)
        requires
            self.wf(),
        ensures
            n == self.end() - DATA_START,
    {
        self.file_size - DATA_START
    }

    /// Bytes encrypted so far.
    pub fn encrypted(&self) -> (n: u64)
        requires
            self.wf(),
        ensures
            n == self.position() - DATA_START,
    {
        self.offset - DATA_START
    }

    /// The next chunk: at most `chunk_limit` bytes from the current position,
    /// numbered from the start of the data area; none once the end is reached.
    pub fn next_chunk(&self) -> (c: Option<EncryptionChunk>)
        requires
            self.wf(),
        ensures
            self.position() == self.end() <==> c is None,
            c matches Some(chunk) ==> chunk == chunk_at(self.position(), self.end(), self.sector()),
    {
        if self.offset >= self.file_size {
            return None;
        }
        let remaining = self.file_size - self.offset;
        let limit: u64 = if CHECKPOINT_SECTORS * (self.sector_size as u64) < ENCRYPT_CHUNK_SIZE as u64 {
            CHECKPOINT_SECTORS * (self.sector_size as u64)
        } else {
            ENCRYPT_CHUNK_SIZE as u64
        };
        let len: usize = if remaining < limit {
            remaining as usize
        } else {
            limit as usize
        };
        Some(
            EncryptionChunk {
                offset: self.offset,
                len,
                start_sector: (self.offset - DATA_START) / (self.sector_size as u64),
            },
        )
    }

    /// Moves past the chunk that `next_chunk` gave. The checkpoint moves
    /// forward by at most `CHECKPOINT_SECTORS`.
    pub fn advance(&mut self, chunk: EncryptionChunk)
        requires
            old(self).wf(),
            old(self).position() < old(self).end(),
            chunk == chunk_at(old(self).position(), old(self).end(), old(self).sector()),
        ensures
            final(self).wf(),
            final(self).position() == old(self).position() + chunk.len,
            final(self).end() == old(self).end(),
            final(self).sector() == old(self).sector(),
            old(self).checkpoint() <= final(self).checkpoint() <= old(self).checkpoint()
                + CHECKPOINT_SECTORS,
    {
        proof {
            lemma_chunk_moves_checkpoint(*old(self), chunk);
        }
        self.offset = self.offset + chunk.len as u64;
        proof {
            let ss = self.sector_size as int;
            if chunk_limit(self.sector_size) % ss == 0 && self.offset != self.file_size {
                let rel = (old(self).offset - DATA_START) as int;
                assert(chunk.len == chunk_limit(self.sector_size));
                vstd::arithmetic::div_mod::lemma_mod_adds(rel, chunk.len as int, ss);
            }
        }
    }
}

/// A whole number of sectors that fits in the room of `room` bytes lies within it.
proof fn lemma_within_room(room: int, ss: int, k: int)
    requires
        room >= 0,
        ss > 0,
        0 <= k <= room / ss,
    ensures
        k * ss <= room,
{
    vstd::arithmetic::div_mod::lemma_fundamental_div_mod(room, ss);
    assert(k * ss <= (room / ss) * ss) by (nonlinear_arith)
        requires
            k <= room / ss,
            ss > 0,
    ;
}

/// More whole sectors than fit in a room of `room` bytes overflow it.
proof fn lemma_past_room(room: int, ss: int, k: int)
    requires
        room >= 0,
        ss > 0,
        k > room / ss,
    ensures
        k * ss > room,
{
    vstd::arithmetic::div_mod::lemma_fundamental_div_mod(room, ss);
    let q = room / ss;
    assert(k * ss > room) by (nonlinear_arith)
        requires
            k >= q + 1,
            ss > 0,
            room == ss * q + room % ss,
            room % ss < ss,
    ;
}

/// A chunk moves the checkpoint forward, by at most `CHECKPOINT_SECTORS`.
proof fn lemma_chunk_moves_checkpoint(c: EncryptionCursor, chunk: EncryptionChunk)
    requires
        c.wf(),
        c.position() < c.end(),
        chunk == chunk_at(c.position(), c.end(), c.sector()),
    ensures
        sectors_before(c.position(), c.sector()) <= sectors_before(
            (c.position() + chunk.len) as u64,
            c.sector(),
        ) <= sectors_before(c.position(), c.sector()) + CHECKPOINT_SECTORS,
{
    let ss = c.sector() as int;
    let rel = (c.position() - DATA_START) as int;
    let len = chunk.len as int;
    assert(len <= (CHECKPOINT_SECTORS as int) * ss);
    vstd::arithmetic::div_mod::lemma_div_is_ordered(rel, rel + len, ss);
    vstd::arithmetic::div_mod::lemma_div_is_ordered(
        rel + len,
        rel + (CHECKPOINT_SECTORS as int) * ss,
        ss,
    );
    vstd::arithmetic::div_mod::lemma_hoist_over_denominator(rel, CHECKPOINT_SECTORS as int, ss as nat);
}

/// Each chunk of in-place encryption covers at most `CHECKPOINT_SECTORS`
/// sectors: saving the checkpoint after every chunk saves progress at least
/// every thousand sectors, and the saved checkpoint never lies more than that
/// behind the sectors written.
pub proof fn lemma_checkpoint_every_thousand_sectors(c: EncryptionCursor)
    requires
        c.wf(),
        c.position() < c.end(),
    ensures
        chunk_at(c.position(), c.end(), c.sector()).len <= CHECKPOINT_SECTORS * c.sector(),
        sectors_before(
            (c.position() + chunk_at(c.position(), c.end(), c.sector()).len) as u64,
            c.sector(),
        ) <= c.checkpoint() + CHECKPOINT_SECTORS,
        ({
            let chunk = chunk_at(c.position(), c.end(), c.sector());
            let rel = c.position() - 17 * 1024 * 1024;
            &&& chunk.offset == c.position()
            &&& 0 < chunk.len <= 1000 * c.sector()
            &&& chunk.len <= 1024 * 1024
            &&& chunk.len == c.end() - c.position() || chunk.len == 1000 * c.sector() || chunk.len
                == 1024 * 1024
            &&& chunk.start_sector * c.sector() <= rel < (chunk.start_sector + 1) * c.sector()
        }),
{
    lemma_chunk_moves_checkpoint(c, chunk_at(c.position(), c.end(), c.sector()));
    let ss = c.sector() as int;
    let rel = c.position() - DATA_START;
    vstd::arithmetic::div_mod::lemma_fundamental_div_mod(rel, ss);
    let q = rel / ss;
    assert(q * ss <= rel < (q + 1) * ss) by (nonlinear_arith)
        requires
            rel == ss * q + rel % ss,
            0 <= rel % ss < ss,
    ;
}

/// In-place encryption numbers sectors as the block manager does: when chunks
/// are whole sectors, sector `i` of a chunk is the data-area sector
/// `start_sector + i`, which lies `i` sectors after the chunk's offset.
pub proof fn lemma_chunk_sectors_are_blocks(c: EncryptionCursor, i: int)
    requires
        c.wf(),
        c.position() < c.end(),
        chunk_limit(c.sector()) % (c.sector() as int) == 0,
        0 <= i,
    ensures
        DATA_START + (chunk_at(c.position(), c.end(), c.sector()).start_sector + i) * c.sector()
            == c.position() + i * c.sector(),
{
    let ss = c.sector() as int;
    let rel = (c.position() - DATA_START) as int;
    vstd::arithmetic::div_mod::lemma_fundamental_div_mod(rel, ss);
    assert((rel / ss + i) * ss == rel + i * ss) by (nonlinear_arith)
        requires
            rel == ss * (rel / ss) + rel % ss,
            rel % ss == 0,
    ;
}

impl VolumeSuperblock {
    /// The superblock of a volume whose in-place encryption of `total_sectors`
    /// sectors starts: checkpoint 0, a zero checksum, no journal and 256
    /// reserved zero bytes.
    pub fn fresh(total_sectors: u64) -> (sb: Self)
        ensures
            sb.encryption_checkpoint == 0,
            sb.total_sectors == total_sectors,
            sb.flags == 0,
            sb.journal_start == 0,
            sb.journal_size == 0,
            sb.header_checksum@ == Seq::new(32, |i: int| 0u8),
            sb.reserved@ == Seq::new(256, |i: int| 0u8),
    {
        let sb = VolumeSuperblock {
            header_checksum: [0u8; 32],
            encryption_checkpoint: 0,
            total_sectors,
            flags: 0,
            journal_start: 0,
            journal_size: 0,
            reserved: vec![0u8; 256],
        };
        assert(sb.header_checksum@ =~= Seq::new(32, |i: int| 0u8));
        assert(sb.reserved@ =~= Seq::new(256, |i: int| 0u8));
        sb
    }

    /// Records that the first `sectors` sectors of the data area are encrypted;
    /// nothing else changes.
    pub fn record_checkpoint(&mut self, sectors: u64)
        ensures
            *final(self) == (VolumeSuperblock { encryption_checkpoint: sectors, ..*old(self) }),
    {
        self.encryption_checkpoint = sectors;
    }

    /// Whether in-place encryption has reached the last sector.
    pub fn encryption_complete(&self) -> (done: bool)
        ensures
            done == (self.encryption_checkpoint >= self.total_sectors),
    {
        self.encryption_checkpoint >= self.total_sectors
    }
}

/// A cursor that has walked the whole data area has a checkpoint of all its
/// whole sectors: saved in a superblock of that many sectors, it reads as
/// complete.
pub proof fn lemma_finished_cursor_completes(c: EncryptionCursor, sb: VolumeSuperblock)
    requires
        c.wf(),
        c.position() == c.end(),
        sb.total_sectors == (c.end() - DATA_START) / (c.sector() as int),
        sb.encryption_checkpoint == c.checkpoint(),
    ensures
        sb.encryption_checkpoint >= sb.total_sectors,
{
}

} // verus!
