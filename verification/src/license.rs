//! License state and the gates on licensed features.
use vstd::prelude::*;
use crate::text::{chars_eq, chars_of, parse_u32, parse_unsigned, push_all, push_str, string_of, trim,
    trim_chars};

verus! {

/// Whether a license is active and what it was bought as.
#[derive(Debug, Clone)]
pub struct LicenseStatus {
    pub activated: bool,
    pub license_key: Option<String>,
    pub email: Option<String>,
    pub product_name: Option<String>,
}

impl LicenseStatus {
    /// Not activated, nothing known.
    pub open spec fn is_default(&self) -> bool {
        !self.activated && self.license_key is None && self.email is None && self.product_name is None
    }
}

impl Default for LicenseStatus {
    fn default() -> (r: Self)
        ensures
            r.is_default(),
    {
        LicenseStatus { activated: false, license_key: None, email: None, product_name: None }
    }
}

/// What is kept on disk about an activated license.
#[derive(Debug, Clone)]
pub struct PersistedLicense {
    pub license_key: String,
    pub email: Option<String>,
    pub product_name: Option<String>,
}

/// The status restored from what was stored: activated, with the stored key,
/// e-mail and product.
pub open spec fn restored_status(p: PersistedLicense) -> LicenseStatus {
    LicenseStatus { activated: true, license_key: Some(p.license_key), email: p.email, product_name: p.product_name }
}

/// What is stored of a status: its key, e-mail and product, when it has a key.
pub open spec fn stored_form(s: LicenseStatus) -> Option<PersistedLicense> {
    match s.license_key {
        Some(k) => Some(PersistedLicense { license_key: k, email: s.email, product_name: s.product_name }),
        None => None,
    }
}

/// What is stored of an activated license is what the next start restores.
pub proof fn law_stored_license_restores(s: LicenseStatus)
    requires
        s.activated,
        s.license_key is Some,
    ensures
        stored_form(s) matches Some(p) && restored_status(p) == s,
{
}

/// The license state of the application.
pub struct LicenseState {
    pub status: LicenseStatus,
}

impl LicenseState {
    /// The state at start: activated with the stored license where one was
    /// read from disk, else the default status.
    pub fn new(persisted: Option<PersistedLicense>) -> (r: Self)
        ensures
            match persisted {
                Some(p) => r.status == restored_status(p),
                None => r.status.is_default(),
            },
            match persisted {
                Some(p) => r.status.activated && r.status.license_key == Some(p.license_key)
                    && r.status.email == p.email && r.status.product_name == p.product_name,
                None => r.status.is_default(),
            },
    {
        match persisted {
            Some(p) => LicenseState {
                status: LicenseStatus {
                    activated: true,
                    license_key: Some(p.license_key),
                    email: p.email,
                    product_name: p.product_name,
                },
            },
            None => LicenseState { status: LicenseStatus::default() },
        }
    }

    /// Whether a license is active.
    pub fn is_activated(&self) -> (r: bool)
        ensures
            r == self.status.activated,
    {
        self.status.activated
    }

    /// Forgets the license (the application removes the stored file).
    pub fn deactivate(&mut self)
        ensures
            final(self).status.is_default(),
    {
        self.status = LicenseStatus::default();
    }

    /// Takes on a newly verified license.
    pub fn set_status(&mut self, status: LicenseStatus)
        ensures
            final(self).status == status,
    {
        self.status = status;
    }
}

/// The text `str::to_lowercase` gives (full Unicode lowercase mapping).
pub uninterp spec fn spec_to_lowercase(s: Seq<char>) -> Seq<char>;

/// Calls `str::to_lowercase`. Claims only that the result is the named value.
#[verifier::external_body]
pub(crate) fn to_lowercase(s: &str) -> (r: String)
    ensures
        r@ == spec_to_lowercase(s@),
{
    s.to_lowercase()
}

/// The highest video height the free tier may pick.
pub open spec fn free_max_height() -> nat {
    720
}

/// The reason a quality needs a license: an explicit height (`<n>p` after
/// trimming and lowering) above 720 on an inactive license.
pub open spec fn quality_refusal(activated: bool, format_quality: Seq<char>) -> Option<Seq<char>> {
    let q = spec_to_lowercase(trim(format_quality));
    if activated || q == "audio"@ || q.len() == 0 {
        None
    } else if q.len() > 0 && q.last() == 'p' {
        match parse_unsigned(q.drop_last(), u32::MAX as nat) {
            Some(h) => if h > free_max_height() {
                Some("Quality "@ + format_quality + " requires a license. Free tier supports up to 720p."@)
            } else {
                None
            },
            None => None,
        }
    } else {
        None
    }
}

/// An active license unlocks every quality.
pub proof fn law_active_license_unlocks_all(format_quality: Seq<char>)
    ensures
        quality_refusal(true, format_quality) is None,
{
}

/// Refuses a quality above the free tier's 720p on an inactive license (see
/// [`quality_refusal`]); "best", "audio" and unparsed qualities pass.
pub fn require_license_for_quality(license: &LicenseState, format_quality: &str) -> (r: Result<(), String>)
    ensures
        match r {
            Ok(()) => quality_refusal(license.status.activated, format_quality@) is None,
            Err(e) => quality_refusal(license.status.activated, format_quality@) == Some(e@),
        },
{
    if license.is_activated() {
        return Ok(());
    }
    let trimmed = string_of(&trim_chars(&chars_of(format_quality)));
    let q = chars_of(to_lowercase(trimmed.as_str()).as_str());
    let audio = chars_of("audio");
    if chars_eq(&q, &audio) || q.len() == 0 {
        return Ok(());
    }
    if q[q.len() - 1] == 'p' {
        let digits = crate::text::slice_chars(&q, 0, q.len() - 1);
        proof {
            assert(digits@ =~= q@.drop_last());
        }
        match parse_u32(&digits) {
            Some(h) => {
                if h > 720 {
                    let mut m: Vec<char> = Vec::new();
                    push_str(&mut m, "Quality ");
                    push_str(&mut m, format_quality);
                    push_str(&mut m, " requires a license. Free tier supports up to 720p.");
                    return Err(string_of(&m));
                }
            },
            None => {},
        }
    }
    Ok(())
}

/// The refusal of conversion on an inactive license.
pub open spec fn conversion_refusal() -> Seq<char> {
    "Video conversion requires a license. Please activate your Gumroad key to unlock this feature."@
}

/// Refuses conversion unless a license is active.
pub fn require_license_for_conversion(license: &LicenseState) -> (r: Result<(), String>)
    ensures
        license.status.activated <==> r is Ok,
        r matches Err(e) ==> e@ == conversion_refusal(),
{
    if license.is_activated() {
        return Ok(());
    }
    Err(String::from_str("Video conversion requires a license. Please activate your Gumroad key to unlock this feature."))
}

/// The key to verify: the entered key trimmed; an empty one is refused.
pub fn activation_key(license_key: &str) -> (r: Result<String, String>)
    ensures
        match r {
            Ok(k) => k@ == trim(license_key@) && k@.len() > 0,
            Err(e) => trim(license_key@).len() == 0 && e@ == "License key cannot be empty"@,
        },
{
    let k = trim_chars(&chars_of(license_key));
    if k.len() == 0 {
        return Err(String::from_str("License key cannot be empty"));
    }
    Ok(string_of(&k))
}

/// The purchase in a license verification answer.
#[derive(Debug, Clone)]
pub struct Purchase {
    pub license_key: Option<String>,
    pub email: Option<String>,
    pub product_name: Option<String>,
    pub refunded: Option<bool>,
    pub disputed: Option<bool>,
    pub chargebacked: Option<bool>,
}

/// The store's answer to a license verification.
#[derive(Debug, Clone)]
pub struct VerifyResponse {
    pub success: bool,
    pub purchase: Option<Purchase>,
    pub message: Option<String>,
}

/// Why a verification answer refuses the license, if it does.
pub open spec fn verification_refusal(resp: VerifyResponse) -> Option<Seq<char>> {
    if !resp.success {
        match resp.message {
            Some(m) => Some(m@),
            None => Some("Invalid license key"@),
        }
    } else {
        match resp.purchase {
            None => Some("No purchase data returned"@),
            Some(p) => if p.refunded == Some(true) {
                Some("This license has been refunded"@)
            } else if p.disputed == Some(true) || p.chargebacked == Some(true) {
                Some("This license has been disputed or chargebacked"@)
            } else {
                None
            },
        }
    }
}

/// Decides on a verification answer: an unsuccessful answer gives its message
/// (or "Invalid license key"), a missing purchase "No purchase data
/// returned", a refunded one "This license has been refunded", a disputed or
/// charged-back one "This license has been disputed or chargebacked"; else
/// the license is activated with the purchase's key, e-mail and product.
pub fn evaluate_verification(resp: VerifyResponse) -> (r: Result<LicenseStatus, String>)
    ensures
        match r {
            Ok(s) => {
                &&& verification_refusal(resp) is None
                &&& s.activated
                &&& s.license_key == resp.purchase->0.license_key
                &&& s.email == resp.purchase->0.email
                &&& s.product_name == resp.purchase->0.product_name
            },
            Err(e) => verification_refusal(resp) == Some(e@),
        },
{
    if !resp.success {
        return match resp.message {
            Some(m) => Err(m),
            None => Err(String::from_str("Invalid license key")),
        };
    }
    match resp.purchase {
        None => Err(String::from_str("No purchase data returned")),
        Some(p) => {
            if p.refunded == Some(true) {
                return Err(String::from_str("This license has been refunded"));
            }
            if p.disputed == Some(true) || p.chargebacked == Some(true) {
                return Err(String::from_str("This license has been disputed or chargebacked"));
            }
            Ok(LicenseStatus {
                activated: true,
                license_key: p.license_key,
                email: p.email,
                product_name: p.product_name,
            })
        },
    }
}

/// What is stored for an activated status: nothing without a key.
pub fn persisted_form(status: &LicenseStatus) -> (r: Result<PersistedLicense, String>)
    ensures
        match r {
            Ok(p) => stored_form(*status) == Some(p),
            Err(_) => stored_form(*status) is None,
        },
        match r {
            Ok(p) => status.license_key == Some(p.license_key) && p.email == status.email
                && p.product_name == status.product_name,
            Err(e) => status.license_key is None && e@ == "No license key to save"@,
        },
{
    match &status.license_key {
        None => Err(String::from_str("No license key to save")),
        Some(k) => Ok(PersistedLicense {
            license_key: k.clone(),
            email: status.email.clone(),
            product_name: status.product_name.clone(),
        }),
    }
}

} // verus!
