//! The session specification: the attributes a token is generated from, and
//! the `ks` output field a generator fills.
use vstd::prelude::*;

verus! {

/// A requested lifetime of exactly 0 is normalized to this default, in
/// seconds, before use.
pub const DEFAULT_EXPIRY: i32 = 86400;

/// The kind of session requested. Carried as an attribute of the
/// specification; neither token format incorporates it into its bytes.
#[derive(Debug, Default, Clone, Copy, PartialEq, Eq, Structural)]
pub enum SessionType {
    #[default]
    USER,
    ADMIN,
}

/// The attributes a session token is generated from. `ks` is the output
/// field: empty until a generator populates it.
#[derive(Debug, Default)]
pub struct KalturaSession {
    /// The shared tenant signing key. Never transmitted; only used to derive
    /// the v1 signature and the v2 encryption key.
    pub secret: String,
    /// The identity bound into the token; opaque to the generators.
    pub user_id: String,
    /// The integer tenant identifier, included unencrypted in the v1 payload
    /// and the v2 envelope prefix.
    pub partner_id: i32,
    /// The requested token lifetime in seconds. Exactly 0 stands for the
    /// default lifetime; negative values pass through unvalidated.
    pub expiry: i32,
    /// The raw comma-separated privilege directives.
    pub privileges: String,
    /// The kind of session requested.
    pub session_type: SessionType,
    /// The generated token, or a pre-supplied one.
    pub ks: String,
}

/// A requested lifetime, with 0 replaced by the default.
pub open spec fn normalize_expiry(e: int) -> int {
    if e == 0 {
        86400
    } else {
        e
    }
}

impl KalturaSession {
    /// Builds a session specification, normalizing a lifetime of 0 to the
    /// default and leaving `ks` empty.
    pub fn new(
        secret: String,
        user_id: String,
        partner_id: i32,
        expiry: i32,
        privileges: String,
        session_type: SessionType,
    ) -> (r: KalturaSession)
        ensures
            r.secret@ == secret@,
            r.user_id@ == user_id@,
            r.partner_id == partner_id,
            r.expiry as int == normalize_expiry(expiry as int),
            r.privileges@ == privileges@,
            r.session_type == session_type,
            r.ks@ == Seq::<char>::empty(),
    {
        let expiry_norm: i32 = if expiry == 0 {
            DEFAULT_EXPIRY
        } else {
            expiry
        };
        KalturaSession {
            secret,
            user_id,
            partner_id,
            expiry: expiry_norm,
            privileges,
            session_type,
            ks: String::new(),
        }
    }
}

} // verus!
