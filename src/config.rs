//! The sign-in service settings, merged from several sources in order of
//! preference.

use vstd::prelude::*;

use crate::text::{chars_of, string_of, trim, trim_chars};

verus! {

/// The settings of the sign-in service; every value may be missing.
#[derive(Debug, Clone)]
pub struct FirebaseConfigData {
    pub api_key: Option<String>,
    pub auth_domain: Option<String>,
    pub project_id: Option<String>,
    pub storage_bucket: Option<String>,
    pub messaging_sender_id: Option<String>,
    pub app_id: Option<String>,
    pub measurement_id: Option<String>,
}

pub open spec fn opt_view(v: Option<String>) -> Option<Seq<char>> {
    match v {
        Some(s) => Some(s@),
        None => None,
    }
}

/// A value trimmed, or missing when nothing is left.
pub open spec fn normalized(v: Option<Seq<char>>) -> Option<Seq<char>> {
    match v {
        Some(s) => if trim(s).len() > 0 {
            Some(trim(s))
        } else {
            None
        },
        None => None,
    }
}

/// The first of two values that is present after normalising.
pub open spec fn preferred(a: Option<Seq<char>>, b: Option<Seq<char>>) -> Option<Seq<char>> {
    match normalized(a) {
        Some(s) => Some(s),
        None => normalized(b),
    }
}

/// A value that is missing or empty.
pub open spec fn absent(v: Option<Seq<char>>) -> bool {
    match v {
        Some(s) => s.len() == 0,
        None => true,
    }
}

impl FirebaseConfigData {
    /// Settings with every value missing.
    pub fn empty() -> (r: FirebaseConfigData)
        ensures
            r.api_key is None,
            r.auth_domain is None,
            r.project_id is None,
            r.storage_bucket is None,
            r.messaging_sender_id is None,
            r.app_id is None,
            r.measurement_id is None,
    {
        FirebaseConfigData {
            api_key: None,
            auth_domain: None,
            project_id: None,
            storage_bucket: None,
            messaging_sender_id: None,
            app_id: None,
            measurement_id: None,
        }
    }

    /// A value trimmed of white space; blank counts as missing.
    pub fn normalize(value: Option<String>) -> (r: Option<String>)
        ensures
            opt_view(r) == normalized(opt_view(value)),
    {
        match value {
            Some(text) => {
                let cs = chars_of(text.as_str());
                let t = trim_chars(&cs);
                if t.len() > 0 {
                    Some(string_of(&t))
                } else {
                    None
                }
            },
            None => None,
        }
    }

    fn prefer(a: Option<String>, b: Option<String>) -> (r: Option<String>)
        ensures
            opt_view(r) == preferred(opt_view(a), opt_view(b)),
    {
        match Self::normalize(a) {
            Some(s) => Some(s),
            None => Self::normalize(b),
        }
    }

    /// Each value taken from `self` where present, else from `fallback`.
    pub fn merge(self, fallback: FirebaseConfigData) -> (r: FirebaseConfigData)
        ensures
            opt_view(r.api_key) == preferred(opt_view(self.api_key), opt_view(fallback.api_key)),
            opt_view(r.auth_domain) == preferred(opt_view(self.auth_domain), opt_view(fallback.auth_domain)),
            opt_view(r.project_id) == preferred(opt_view(self.project_id), opt_view(fallback.project_id)),
            opt_view(r.storage_bucket) == preferred(opt_view(self.storage_bucket), opt_view(fallback.storage_bucket)),
            opt_view(r.messaging_sender_id) == preferred(
                opt_view(self.messaging_sender_id),
                opt_view(fallback.messaging_sender_id),
            ),
            opt_view(r.app_id) == preferred(opt_view(self.app_id), opt_view(fallback.app_id)),
            opt_view(r.measurement_id) == preferred(opt_view(self.measurement_id), opt_view(fallback.measurement_id)),
    {
        FirebaseConfigData {
            api_key: Self::prefer(self.api_key, fallback.api_key),
            auth_domain: Self::prefer(self.auth_domain, fallback.auth_domain),
            project_id: Self::prefer(self.project_id, fallback.project_id),
            storage_bucket: Self::prefer(self.storage_bucket, fallback.storage_bucket),
            messaging_sender_id: Self::prefer(self.messaging_sender_id, fallback.messaging_sender_id),
            app_id: Self::prefer(self.app_id, fallback.app_id),
            measurement_id: Self::prefer(self.measurement_id, fallback.measurement_id),
        }
    }

    /// The names of the required values that are missing or empty, among
    /// `apiKey`, `authDomain`, `projectId` and `appId`, in that order.
    pub fn missing_required(&self) -> (r: Vec<&'static str>)
        ensures
            r@.map_values(|s: &'static str| s@) == (if absent(opt_view(self.api_key)) {
                seq!["apiKey"@]
            } else {
                Seq::empty()
            }) + (if absent(opt_view(self.auth_domain)) {
                seq!["authDomain"@]
            } else {
                Seq::empty()
            }) + (if absent(opt_view(self.project_id)) {
                seq!["projectId"@]
            } else {
                Seq::empty()
            }) + (if absent(opt_view(self.app_id)) {
                seq!["appId"@]
            } else {
                Seq::empty()
            }),
    {
        let mut fields: Vec<&'static str> = Vec::new();
        if is_absent(&self.api_key) {
            fields.push("apiKey");
        }
        if is_absent(&self.auth_domain) {
            fields.push("authDomain");
        }
        if is_absent(&self.project_id) {
            fields.push("projectId");
        }
        if is_absent(&self.app_id) {
            fields.push("appId");
        }
        proof {
            let e = Seq::<Seq<char>>::empty();
            let a = if absent(opt_view(self.api_key)) { seq!["apiKey"@] } else { e };
            let b = if absent(opt_view(self.auth_domain)) { seq!["authDomain"@] } else { e };
            let c = if absent(opt_view(self.project_id)) { seq!["projectId"@] } else { e };
            let d = if absent(opt_view(self.app_id)) { seq!["appId"@] } else { e };
            assert(fields@.map_values(|s: &'static str| s@) =~= a + b + c + d);
        }
        fields
    }
}

fn is_absent(v: &Option<String>) -> (r: bool)
    ensures
        r == absent(opt_view(*v)),
{
    match v {
        Some(s) => s.as_str().is_empty(),
        None => true,
    }
}

} // verus!
