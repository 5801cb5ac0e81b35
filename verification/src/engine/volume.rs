//! A volume on a device: what creating, unlocking and locking it decide. The
//! device's bytes are read and written by the caller, who hands the header it
//! read to these functions and writes back the header they return.
use crate::engine::crypto::{generate_master_key, CryptoEngine, MASTER_KEY_SIZE};
use crate::engine::format::{
    attempt_at, attempt_by_clock, cleared, status_of_read, locked_at, locked_by_clock, locked_from, opened_master_key,
    VolumeHeader, CROSSCRYPT_MAGIC, HEADER_NONCE_SIZE, HEADER_SALT_SIZE, LOCK_DURATION_SECS,
    MAX_ATTEMPTS_BEFORE_WIPE,
};
use crate::engine::kdf::{kdf_accepts, kdf_in_range, kdf_key, KdfEngine, DEFAULT_KEY_SIZE};
use crate::engine::{unix_time_now, CrossCryptError, CryptoAlgorithm, EncryptionConfig, KdfAlgorithm, VolumeStatus};
use vstd::prelude::*;

verus! {

/// The master key a password opens a header to: the key-encryption key is
/// derived from the password with the header's key-derivation setting and salt,
/// and must open the wrapped master key. `None` when the derivation refuses the
/// inputs or the key does not open.
pub open spec fn opens_to(h: VolumeHeader, password: Seq<u8>) -> Option<Seq<u8>> {
    if kdf_accepts(h.config.kdf, password.len(), h.salt@.len()) {
        opened_master_key(h, kdf_key(h.config.kdf, password, h.salt@))
    } else {
        None
    }
}

/// Whether the functions of this module can work on a header: its key
/// derivation is in the range the parameter check handles and its nonce has
/// the cipher's length.
pub open spec fn header_usable(h: VolumeHeader) -> bool {
    kdf_in_range(h.config.kdf) && h.master_key_nonce@.len() == HEADER_NONCE_SIZE
}

/// Whether the functions of this module can work on a header (see
/// `header_usable`).
pub fn header_is_usable(h: &VolumeHeader) -> (ok: bool)
    ensures
        ok == header_usable(*h),
{
    crate::engine::kdf::kdf_params_in_range(&h.config.kdf)
        && h.master_key_nonce.len() == HEADER_NONCE_SIZE
}

/// Derives the key-encryption key of a password with a key-derivation setting.
fn derive_kek(kdf: &KdfAlgorithm, password: &[u8], salt: &[u8]) -> (r: Result<Vec<u8>, CrossCryptError>)
    requires
        kdf_in_range(*kdf),
    ensures
        r is Ok <==> kdf_accepts(*kdf, password@.len(), salt@.len()),
        r matches Ok(k) ==> k@ == kdf_key(*kdf, password@, salt@) && k@.len() == DEFAULT_KEY_SIZE,
        r matches Err(e) ==> e is Crypto,
{
    match kdf {
        KdfAlgorithm::Argon2id { iterations, memory_kb, parallelism } => KdfEngine::argon2id(
            password,
            salt,
            *iterations,
            *memory_kb,
            *parallelism,
        ),
    }
}

/// Opens a header's master key with a password. A password the key derivation
/// refuses gives a crypto error; one whose key does not open the wrapped master
/// key gives an invalid-password error.
pub fn open_master_key(header: &VolumeHeader, password: &[u8]) -> (r: Result<Vec<u8>, CrossCryptError>)
    requires
        header_usable(*header),
    ensures
        !kdf_accepts(header.config.kdf, password@.len(), header.salt@.len()) ==> (r matches Err(e)
            && e is Crypto),
        kdf_accepts(header.config.kdf, password@.len(), header.salt@.len()) ==> match opens_to(
            *header,
            password@,
        ) {
            Some(key) => r matches Ok(k) && k@ == key,
            None => r matches Err(e) && e is InvalidPassword,
        },
{
    let kek = derive_kek(&header.config.kdf, password, header.salt.as_slice())?;
    header.decrypt_master_key(kek.as_slice())
}

/// What unlocking with a password gives when the header is not locked: the
/// engine over the opened master key, a crypto error when the key derivation
/// refuses the password or the opened key is not 64 bytes long, and an
/// invalid-password error when the password does not open the key.
pub open spec fn unlock_outcome(
    header: VolumeHeader,
    password: Seq<u8>,
    r: Result<(VolumeHeader, CryptoEngine), CrossCryptError>,
) -> bool {
    if !kdf_accepts(header.config.kdf, password.len(), header.salt@.len()) {
        r matches Err(e) && e is Crypto
    } else {
        match opens_to(header, password) {
            Some(key) => if key.len() == MASTER_KEY_SIZE {
                r matches Ok((h, engine)) && h == header && engine.key() == key
                    && engine.sector_len() == header.config.sector_size
            } else {
                r matches Err(e) && e is Crypto
            },
            None => r matches Err(e) && e is InvalidPassword,
        }
    }
}

/// What unlocking gives with the clock reading `now`: a header locked at `now`
/// is refused, any other unlocks as `unlock_outcome` says.
pub open spec fn unlocked_by_clock(
    header: VolumeHeader,
    password: Seq<u8>,
    now: u64,
    r: Result<(VolumeHeader, CryptoEngine), CrossCryptError>,
) -> bool {
    &&& locked_at(header, now) ==> (r matches Err(e) && e is VolumeLocked)
    &&& !locked_at(header, now) ==> unlock_outcome(header, password, r)
}

/// A header locked for five minutes from `now`, or left as it was when the
/// lock's end would not fit in a `u64`.
pub open spec fn header_locked_at(h: VolumeHeader, now: u64) -> VolumeHeader {
    if now <= u64::MAX - LOCK_DURATION_SECS {
        locked_from(h, now, LOCK_DURATION_SECS)
    } else {
        h
    }
}

/// What an unlock attempt with the clock reading `now` gives: the header to
/// write back and the engine or error. A locked header is refused as it is; a
/// password whose key does not open the master key is a failed attempt, counted
/// on the header (locking it from the third, wiping it at the tenth); anything
/// else unlocks as `unlock_outcome` says, with the header as it was.
pub open spec fn unlock_attempted(
    header: VolumeHeader,
    password: Seq<u8>,
    now: u64,
    after: VolumeHeader,
    res: Result<CryptoEngine, CrossCryptError>,
) -> bool {
    if locked_at(header, now) {
        after == header && (res matches Err(e) && e is VolumeLocked)
    } else if kdf_accepts(header.config.kdf, password.len(), header.salt@.len()) && opens_to(
        header,
        password,
    ) is None {
        &&& attempt_by_clock(header, after, now)
        &&& header.attempt_count + 1 < MAX_ATTEMPTS_BEFORE_WIPE ==> (res matches Err(e)
            && e is InvalidPassword)
        &&& header.attempt_count + 1 >= MAX_ATTEMPTS_BEFORE_WIPE ==> (res matches Err(e)
            && e is Crypto)
    } else {
        &&& after == header
        &&& unlock_outcome(
            header,
            password,
            match res {
                Ok(engine) => Ok((header, engine)),
                Err(e) => Err(e),
            },
        )
    }
}

/// A volume: the path of its device and, once created or unlocked, its header
/// and sector engine.
pub struct CrossCryptVolume {
    device: String,
    header: Option<VolumeHeader>,
    crypto: Option<CryptoEngine>,
}

impl CrossCryptVolume {
    /// The device's path.
    pub closed spec fn device_path(&self) -> Seq<char> {
        self.device@
    }

    /// The header, once the volume is created or unlocked.
    pub closed spec fn current_header(&self) -> Option<VolumeHeader> {
        self.header
    }

    /// The sector engine, once the volume is unlocked.
    pub closed spec fn engine(&self) -> Option<CryptoEngine> {
        self.crypto
    }

    /// A volume on `device`, neither created nor unlocked yet.
    pub fn new(device: String) -> (v: Self)
        ensures
            v.device_path() == device@,
            v.current_header() is None,
            v.engine() is None,
    {
        CrossCryptVolume { device, header: None, crypto: None }
    }

    /// The device's path.
    pub fn device(&self) -> (d: &str)
        ensures
            d@ == self.device_path(),
    {
        self.device.as_str()
    }

    /// The header, once the volume is created or unlocked.
    pub fn header(&self) -> (h: Option<&VolumeHeader>)
        ensures
            match self.current_header() {
                Some(x) => h matches Some(y) && *y == x,
                None => h is None,
            },
    {
        self.header.as_ref()
    }

    /// The sector engine, once the volume is unlocked.
    pub fn crypto(&self) -> (c: Option<&CryptoEngine>)
        ensures
            match self.engine() {
                Some(x) => c matches Some(y) && *y == x,
                None => c is None,
            },
    {
        self.crypto.as_ref()
    }

    /// The header and master key of a new volume: a fresh header for `config`,
    /// a random 64-byte master key, wrapped under the key derived from the
    /// password and the header's salt. The password then opens the header to
    /// that master key. A password or setting the key derivation refuses gives a
    /// crypto error.
    pub fn prepare_create(password: &[u8], config: &EncryptionConfig) -> (r: Result<
        (VolumeHeader, Vec<u8>),
        CrossCryptError,
    >)
        requires
            kdf_in_range(config.kdf),
        ensures
            r is Ok <==> kdf_accepts(config.kdf, password@.len(), HEADER_SALT_SIZE as nat),
            r matches Ok((h, key)) ==> {
                &&& key@.len() == MASTER_KEY_SIZE
                &&& h.magic@ == CROSSCRYPT_MAGIC@
                &&& h.config@ == config@
                &&& h.version == 1
                &&& h.salt@.len() == HEADER_SALT_SIZE
                &&& h.attempt_count == 0
                &&& h.locked_until is None
                &&& !h.wipe_triggered
                &&& header_usable(h)
                &&& opens_to(h, password@) == Some(key@)
            },
            r matches Err(e) ==> e is Crypto,
    {
        let mut header = VolumeHeader::new(config);
        let master_key = generate_master_key();
        let kek = derive_kek(&config.kdf, password, header.salt.as_slice())?;
        let key = crate::engine::bytes::copy_range(master_key.as_slice(), 0, MASTER_KEY_SIZE);
        match header.encrypt_master_key(key.as_slice(), kek.as_slice()) {
            Ok(()) => {},
            Err(e) => {
                return Err(e);
            },
        }
        Ok((header, key))
    }

    /// Records the header of a volume that was just written to the device.
    pub fn attach_header(&mut self, header: VolumeHeader)
        ensures
            final(self).current_header() == Some(header),
            final(self).engine() == old(self).engine(),
            final(self).device_path() == old(self).device_path(),
    {
        self.header = Some(header);
    }

    /// Unlocks a header read from the device at Unix time `now`: a header locked
    /// at `now` is refused, and otherwise the password must open its master key,
    /// which becomes the sector engine.
    pub fn unlock_at(header: VolumeHeader, password: &[u8], now: u64) -> (r: Result<
        (VolumeHeader, CryptoEngine),
        CrossCryptError,
    >)
        requires
            header_usable(header),
        ensures
            locked_at(header, now) ==> (r matches Err(e) && e is VolumeLocked),
            !locked_at(header, now) ==> unlock_outcome(header, password@, r),
    {
        if header.is_locked_at(now) {
            return Err(CrossCryptError::VolumeLocked);
        }
        let master_key = open_master_key(&header, password)?;
        let crypto = CryptoEngine::new(master_key.as_slice(), header.config.sector_size)?;
        Ok((header, crypto))
    }

    /// Unlocks a header read from the device now, by the system clock. A header
    /// without a lock is unlocked as `unlock_at` does; a lock refuses only while
    /// it lasts, which the clock decides.
    pub fn unlock(header: VolumeHeader, password: &[u8]) -> (r: Result<
        (VolumeHeader, CryptoEngine),
        CrossCryptError,
    >)
        requires
            header_usable(header),
        ensures
            exists|now: u64| #[trigger] unlocked_by_clock(header, password@, now, r),
            header.locked_until is None ==> unlock_outcome(header, password@, r),
            (r matches Err(e) && e is VolumeLocked) ==> header.locked_until is Some,
            r is Ok ==> unlock_outcome(header, password@, r),
    {
        let now = unix_time_now();
        let ghost h = header;
        let r = Self::unlock_at(header, password, now);
        assert(unlocked_by_clock(h, password@, now, r));
        r
    }

    /// Attempts to unlock a header read from the device at Unix time `now`,
    /// counting a wrong password on the header (see `unlock_attempted`); the
    /// caller writes the returned header back.
    pub fn attempt_unlock_at(header: VolumeHeader, password: &[u8], now: u64) -> (r: (
        VolumeHeader,
        Result<CryptoEngine, CrossCryptError>,
    ))
        requires
            header_usable(header),
            header.attempt_count < u32::MAX,
        ensures
            unlock_attempted(header, password@, now, r.0, r.1),
    {
        if header.is_locked_at(now) {
            return (header, Err(CrossCryptError::VolumeLocked));
        }
        match open_master_key(&header, password) {
            Ok(master_key) => {
                let sector_size = header.config.sector_size;
                match CryptoEngine::new(master_key.as_slice(), sector_size) {
                    Ok(engine) => (header, Ok(engine)),
                    Err(e) => (header, Err(e)),
                }
            },
            Err(CrossCryptError::InvalidPassword) => {
                let mut counted = header;
                match counted.record_attempt_at(now) {
                    Ok(()) => (counted, Err(CrossCryptError::InvalidPassword)),
                    Err(e) => (counted, Err(e)),
                }
            },
            Err(e) => (header, Err(e)),
        }
    }

    /// Attempts to unlock a header read from the device now, by the system
    /// clock (see `attempt_unlock_at`); the caller writes the returned header
    /// back.
    pub fn attempt_unlock(header: VolumeHeader, password: &[u8]) -> (r: (
        VolumeHeader,
        Result<CryptoEngine, CrossCryptError>,
    ))
        requires
            header_usable(header),
            header.attempt_count < u32::MAX,
        ensures
            exists|now: u64| #[trigger] unlock_attempted(header, password@, now, r.0, r.1),
    {
        let now = unix_time_now();
        Self::attempt_unlock_at(header, password, now)
    }

    /// Records the header and engine of a volume that was just unlocked and
    /// mounted.
    pub fn attach(&mut self, header: VolumeHeader, crypto: CryptoEngine)
        ensures
            final(self).current_header() == Some(header),
            final(self).engine() == Some(crypto),
            final(self).device_path() == old(self).device_path(),
    {
        self.header = Some(header);
        self.crypto = Some(crypto);
    }

    /// Locks the volume's header for five minutes from Unix time `now`.
    /// Returns whether the volume has a header, which the caller then writes
    /// back; the header stays as it was when the lock's end would not fit in a
    /// `u64`.
    pub fn lock_at(&mut self, now: u64) -> (has_header: bool)
        ensures
            has_header == old(self).current_header() is Some,
            final(self).engine() == old(self).engine(),
            final(self).device_path() == old(self).device_path(),
            old(self).current_header() is None ==> final(self).current_header() is None,
            old(self).current_header() matches Some(h) ==> final(self).current_header() == Some(
                header_locked_at(h, now),
            ),
    {
        match &mut self.header {
            Some(header) => {
                if now <= u64::MAX - LOCK_DURATION_SECS {
                    header.set_lock_at(now, LOCK_DURATION_SECS);
                }
                true
            },
            None => false,
        }
    }

    /// Locks the volume's header for five minutes from now, by the system clock
    /// (see `lock_at`).
    pub fn lock(&mut self) -> (has_header: bool)
        ensures
            has_header == old(self).current_header() is Some,
            final(self).engine() == old(self).engine(),
            final(self).device_path() == old(self).device_path(),
            old(self).current_header() is None ==> final(self).current_header() is None,
            old(self).current_header() matches Some(h) ==> exists|now: u64|
                final(self).current_header() == Some(#[trigger] header_locked_at(h, now)),
    {
        let now = unix_time_now();
        let ghost before = self.current_header();
        let has_header = self.lock_at(now);
        proof {
            if let Some(h) = before {
                assert(self.current_header() == Some(header_locked_at(h, now)));
            }
        }
        has_header
    }
}

/// The shortest password a new volume takes, in bytes of UTF-8.
pub const MIN_PASSWORD_LEN: usize = 8;

/// Password prompts a mount makes before it locks the volume.
pub const MAX_MOUNT_ATTEMPTS: u32 = 3;

/// Why a new password is refused.
#[derive(Debug, Clone, Copy, PartialEq, Eq, Structural)]
pub enum PasswordProblem {
    /// The password and its confirmation differ.
    Mismatch,
    /// The password is shorter than the minimum.
    TooShort,
}

impl PasswordProblem {
    /// The message shown for the problem.
    pub fn message(&self) -> (msg: String)
        ensures
            self is Mismatch ==> msg@ == "Passwords do not match"@,
            self is TooShort ==> msg@ == "Password must be at least 8 characters"@,
    {
        match self {
            PasswordProblem::Mismatch => String::from_str("Passwords do not match"),
            PasswordProblem::TooShort => String::from_str("Password must be at least 8 characters"),
        }
    }
}

/// The length of a password as the minimum counts it: the bytes of its UTF-8
/// encoding, as `str::len` gives them.
pub open spec fn password_len(password: Seq<char>) -> nat {
    vstd::utf8::encode_utf8(password).len()
}

/// Whether a password is long enough for a new volume: at least eight bytes of
/// UTF-8.
pub fn password_long_enough(password: &str) -> (ok: bool)
    ensures
        ok == (password_len(password@) >= MIN_PASSWORD_LEN),
        ok == (vstd::utf8::encode_utf8(password@).len() >= 8),
{
    password.as_bytes().len() >= MIN_PASSWORD_LEN
}

/// Checks a new password against its confirmation: they must be equal, and
/// the password at least eight bytes long.
pub fn check_new_password(password: &String, confirm: &String) -> (r: Result<(), PasswordProblem>)
    ensures
        password@ != confirm@ ==> r == Err::<(), PasswordProblem>(PasswordProblem::Mismatch),
        password@ == confirm@ && password_len(password@) < MIN_PASSWORD_LEN ==> r == Err::<
            (),
            PasswordProblem,
        >(PasswordProblem::TooShort),
        password@ == confirm@ && password_len(password@) >= MIN_PASSWORD_LEN ==> r is Ok,
        r is Ok <==> password@ == confirm@ && vstd::utf8::encode_utf8(password@).len() >= 8,
{
    if *password != *confirm {
        return Err(PasswordProblem::Mismatch);
    }
    if !password_long_enough(password.as_str()) {
        return Err(PasswordProblem::TooShort);
    }
    Ok(())
}

/// Whether a device of this status can be mounted: only a volume whose
/// encryption is complete can; the error says why not.
pub fn check_mountable(status: VolumeStatus) -> (r: Result<(), String>)
    ensures
        r is Ok <==> status is Encrypted,
        status is NotEncrypted ==> (r matches Err(m) && m@ == "Device is not a CrossCrypt volume"@),
        status is EncryptionInProgress ==> (r matches Err(m) && m@
            == "Encryption in progress. Use 'resume' to continue."@),
{
    match status {
        VolumeStatus::Encrypted => Ok(()),
        VolumeStatus::NotEncrypted => Err(String::from_str("Device is not a CrossCrypt volume")),
        VolumeStatus::EncryptionInProgress => Err(
            String::from_str("Encryption in progress. Use 'resume' to continue."),
        ),
    }
}

/// Whether creating a volume asks the user first: only when not forced, the
/// device holds data and the volume is not quick-formatted.
pub fn needs_confirmation(force: bool, has_data: bool, quick: bool) -> (ask: bool)
    ensures
        ask == (!force && has_data && !quick),
{
    !force && has_data && !quick
}

impl EncryptionConfig {
    /// The configuration new volumes get: AES-256-XTS, Argon2id with three
    /// passes over 64 MiB and four lanes, 4096-byte sectors.
    pub fn standard(label: Option<String>) -> (c: Self)
        ensures
            c.algorithm == CryptoAlgorithm::Aes256Xts,
            c.kdf == (KdfAlgorithm::Argon2id { iterations: 3, memory_kb: 65536, parallelism: 4 }),
            c.sector_size == 4096,
            c.label == label,
            kdf_in_range(c.kdf),
    {
        EncryptionConfig {
            algorithm: CryptoAlgorithm::Aes256Xts,
            kdf: KdfAlgorithm::Argon2id { iterations: 3, memory_kb: 64 * 1024, parallelism: 4 },
            sector_size: 4096,
            label,
        }
    }
}

/// The count of failed password prompts of a mount.
pub struct MountAttempts {
    failed: u32,
}

impl MountAttempts {
    /// Failed prompts so far.
    pub closed spec fn count(&self) -> u32 {
        self.failed
    }

    /// No failed prompt yet.
    pub fn new() -> (a: Self)
        ensures
            a.count() == 0,
    {
        MountAttempts { failed: 0 }
    }

    /// Records a failed prompt. Returns the prompts left, or `None` when the
    /// limit is reached and the volume is to be locked.
    pub fn record_failure(&mut self) -> (left: Option<u32>)
        requires
            old(self).count() < MAX_MOUNT_ATTEMPTS,
        ensures
            final(self).count() == old(self).count() + 1,
            final(self).count() >= MAX_MOUNT_ATTEMPTS ==> left is None,
            final(self).count() < MAX_MOUNT_ATTEMPTS ==> left == Some(
                (MAX_MOUNT_ATTEMPTS - final(self).count()) as u32,
            ),
    {
        self.failed = self.failed + 1;
        if self.failed >= MAX_MOUNT_ATTEMPTS {
            None
        } else {
            Some(MAX_MOUNT_ATTEMPTS - self.failed)
        }
    }
}

/// Clearing a header's lock and failed attempts changes nothing a password
/// opens: the same password opens it to the same master key.
pub proof fn lemma_clear_keeps_key(h: VolumeHeader, password: Seq<u8>)
    ensures
        opens_to(cleared(h), password) == opens_to(h, password),
{
}

/// A failed password attempt short of the wipe changes nothing a password
/// opens: the count and the lock are all it touches.
pub proof fn lemma_attempt_keeps_key(h: VolumeHeader, after: VolumeHeader, now: u64, password: Seq<u8>)
    requires
        attempt_at(h, after, now),
        h.attempt_count + 1 < MAX_ATTEMPTS_BEFORE_WIPE,
    ensures
        opens_to(after, password) == opens_to(h, password),
{
}

/// The tenth failed attempt wipes the volume: its header is marked wiped, and
/// no password opens it any more, not even the right one; every later unlock
/// attempt is refused, and the header reads as no volume.
pub proof fn lemma_wipe_destroys_key(
    h: VolumeHeader,
    after: VolumeHeader,
    now: u64,
    password: Seq<u8>,
    later: u64,
    h2: VolumeHeader,
    r: Result<CryptoEngine, CrossCryptError>,
)
    requires
        h.attempt_count + 1 == MAX_ATTEMPTS_BEFORE_WIPE,
        attempt_by_clock(h, after, now),
        unlock_attempted(after, password, later, h2, r),
    ensures
        after.wipe_triggered,
        opens_to(after, password) is None,
        r is Err,
        status_of_read(Ok(after)) == Ok::<VolumeStatus, CrossCryptError>(VolumeStatus::NotEncrypted),
{
}

/// Three wrong passwords in a row lock the volume: each attempt is refused as
/// an invalid password and counted on the header, and the third locks it for
/// five minutes from then.
pub proof fn lemma_three_wrong_passwords_lock(
    h0: VolumeHeader,
    password: Seq<u8>,
    now: u64,
    h1: VolumeHeader,
    r1: Result<CryptoEngine, CrossCryptError>,
    h2: VolumeHeader,
    r2: Result<CryptoEngine, CrossCryptError>,
    h3: VolumeHeader,
    r3: Result<CryptoEngine, CrossCryptError>,
)
    requires
        h0.attempt_count == 0,
        !locked_at(h0, now),
        kdf_accepts(h0.config.kdf, password.len(), h0.salt@.len()),
        opens_to(h0, password) is None,
        now + LOCK_DURATION_SECS <= u64::MAX,
        unlock_attempted(h0, password, now, h1, r1),
        unlock_attempted(h1, password, now, h2, r2),
        unlock_attempted(h2, password, now, h3, r3),
    ensures
        r1 matches Err(e) && e is InvalidPassword,
        r2 matches Err(e) && e is InvalidPassword,
        r3 matches Err(e) && e is InvalidPassword,
        h3.attempt_count == 3,
        h3.locked_until == Some((now + LOCK_DURATION_SECS) as u64),
        locked_at(h3, now),
        opens_to(h3, password) == opens_to(h0, password),
{
    reveal_with_fuel(crate::engine::format::lock_secs, 2);
}

/// Locking a header changes nothing a password opens.
pub proof fn lemma_lock_keeps_key(after: VolumeHeader, before: VolumeHeader, secs: u64, password: Seq<u8>)
    requires
        locked_by_clock(after, before, secs),
    ensures
        opens_to(after, password) == opens_to(before, password),
{
}

/// A volume prepared with a password unlocks with that password, whenever its
/// header is not locked, to an engine over the master key it was prepared with.
pub proof fn lemma_prepared_unlocks(
    header: VolumeHeader,
    key: Seq<u8>,
    password: Seq<u8>,
    r: Result<(VolumeHeader, CryptoEngine), CrossCryptError>,
)
    requires
        opens_to(header, password) == Some(key),
        key.len() == MASTER_KEY_SIZE,
        unlock_outcome(header, password, r),
    ensures
        r matches Ok((h, engine)) && h == header && engine.key() == key,
{
}

/// While a lock lasts every unlock attempt is refused as locked, even with the
/// right password, and nothing is counted: the header stays as it was.
pub proof fn lemma_locked_refuses(
    header: VolumeHeader,
    password: Seq<u8>,
    now: u64,
    after: VolumeHeader,
    r: Result<CryptoEngine, CrossCryptError>,
)
    requires
        header.locked_until matches Some(until) && now < until,
        unlock_attempted(header, password, now, after, r),
    ensures
        after == header,
        r matches Err(e) && e is VolumeLocked,
{
}

/// Outside a lock, the password a header was made with unlocks it, to an
/// engine over its master key, and the attempt changes nothing on the header.
pub proof fn lemma_right_password_unlocks(
    header: VolumeHeader,
    password: Seq<u8>,
    key: Seq<u8>,
    now: u64,
    after: VolumeHeader,
    r: Result<CryptoEngine, CrossCryptError>,
)
    requires
        header.locked_until matches Some(until) ==> now >= until,
        opens_to(header, password) == Some(key),
        key.len() == 64,
        unlock_attempted(header, password, now, after, r),
    ensures
        after == header,
        r matches Ok(engine) && engine.key() == key && engine.sector_len()
            == header.config.sector_size,
{
}

} // verus!
