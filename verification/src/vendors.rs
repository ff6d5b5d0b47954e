//! Vendor registry: per-provider connection and auth defaults. An account picks
//! a `vendor` and inherits these; any field can be overridden per account.

use vstd::prelude::*;

use crate::text::str_equal;

verus! {

/// How an account authenticates to its IMAP server.
#[derive(Debug, Clone, Copy, PartialEq, Eq, Structural)]
pub enum AuthMethod {
    Xoauth2Msal,
    Xoauth2Google,
    Password,
}

/// Connection and auth defaults for a vendor.
#[derive(Debug, Clone, Copy)]
pub struct VendorDefaults {
    pub imap_host: &'static str,
    pub imap_port: u16,
    pub auth_method: AuthMethod,
    /// OAuth specifics - only meaningful for `xoauth2-msal`.
    pub client_id: Option<&'static str>,
    pub authority: Option<&'static str>,
    pub redirect_uri: Option<&'static str>,
    pub scopes: &'static [&'static str],
}

/// Mozilla Thunderbird's public OAuth client ID. Personal Microsoft accounts can
/// no longer register their own app without a (paid/gated) Entra directory, so the
/// well-known public client is reused; override via an account's `clientId`.
pub const THUNDERBIRD_CLIENT_ID: &'static str = "9e5f94bc-e8a4-4e73-b8be-63364c29d753";

/// Known vendor names, in registry order.
pub const VENDOR_NAMES: [&'static str; 3] = ["microsoft", "gmail", "generic"];

/// The view of an optional static string.
pub open spec fn opt_str_view(o: Option<&'static str>) -> Option<Seq<char>> {
    match o {
        Some(s) => Some(s@),
        None => None,
    }
}

/// The model of a vendor's defaults.
pub struct VendorSpec {
    pub imap_host: Seq<char>,
    pub imap_port: u16,
    pub auth_method: AuthMethod,
    pub client_id: Option<Seq<char>>,
    pub authority: Option<Seq<char>>,
    pub redirect_uri: Option<Seq<char>>,
    pub scopes: Seq<Seq<char>>,
}

/// The model of a `VendorDefaults` value.
pub open spec fn defaults_view(v: VendorDefaults) -> VendorSpec {
    VendorSpec {
        imap_host: v.imap_host@,
        imap_port: v.imap_port,
        auth_method: v.auth_method,
        client_id: opt_str_view(v.client_id),
        authority: opt_str_view(v.authority),
        redirect_uri: opt_str_view(v.redirect_uri),
        scopes: v.scopes@.map_values(|s: &str| s@),
    }
}

/// The registry: the defaults of each known vendor.
pub open spec fn vendor_spec(name: Seq<char>) -> Option<VendorSpec> {
    if name == "microsoft"@ {
        Some(VendorSpec {
            imap_host: "outlook.office365.com"@,
            imap_port: 993,
            auth_method: AuthMethod::Xoauth2Msal,
            client_id: Some(THUNDERBIRD_CLIENT_ID@),
            authority: Some("https://login.microsoftonline.com/common"@),
            redirect_uri: Some("https://localhost"@),
            scopes: seq!["https://outlook.office.com/IMAP.AccessAsUser.All"@],
        })
    } else if name == "gmail"@ {
        Some(VendorSpec {
            imap_host: "imap.gmail.com"@,
            imap_port: 993,
            auth_method: AuthMethod::Password,
            client_id: None,
            authority: None,
            redirect_uri: None,
            scopes: seq![],
        })
    } else if name == "generic"@ {
        Some(VendorSpec {
            imap_host: ""@,
            imap_port: 993,
            auth_method: AuthMethod::Password,
            client_id: None,
            authority: None,
            redirect_uri: None,
            scopes: seq![],
        })
    } else {
        None
    }
}

/// The registry knows exactly the vendors `microsoft`, `gmail` and `generic`;
/// every one of them connects over implicit TLS on port 993; only `microsoft`
/// signs in with OAuth (with the Thunderbird client and the IMAP scope), and
/// only `generic` leaves the host to the account.
pub proof fn law_vendor_registry(name: Seq<char>)
    ensures
        vendor_spec(name) is Some <==> (name == "microsoft"@ || name == "gmail"@ || name == "generic"@),
        vendor_spec(name) matches Some(v) ==> v.imap_port == 993,
        vendor_spec(name) matches Some(v) ==> ((v.auth_method == AuthMethod::Xoauth2Msal) <==> name == "microsoft"@),
        vendor_spec(name) matches Some(v) ==> (v.auth_method != AuthMethod::Xoauth2Msal ==> v.auth_method == AuthMethod::Password && v.scopes.len() == 0),
        vendor_spec("microsoft"@) matches Some(v) && v.client_id == Some(THUNDERBIRD_CLIENT_ID@) && v.scopes.len() == 1,
        vendor_spec(name) matches Some(v) ==> ((v.imap_host.len() == 0) <==> name == "generic"@),
{
    reveal_strlit("microsoft");
    reveal_strlit("gmail");
    reveal_strlit("generic");
    reveal_strlit("outlook.office365.com");
    reveal_strlit("imap.gmail.com");
    reveal_strlit("");
    assert("gmail"@ != "microsoft"@) by {
        assert("gmail"@.len() != "microsoft"@.len());
    }
    assert("generic"@ != "microsoft"@) by {
        assert("generic"@.len() != "microsoft"@.len());
    }
    assert("generic"@ != "gmail"@) by {
        assert("generic"@.len() != "gmail"@.len());
    }
    assert(""@.len() == 0);
    assert("outlook.office365.com"@.len() > 0);
    assert("imap.gmail.com"@.len() > 0);
}

/// Looks up a vendor's defaults by name.
pub fn get_vendor(name: &str) -> (r: Option<VendorDefaults>)
    ensures
        r is Some <==> vendor_spec(name@) is Some,
        r matches Some(v) ==> Some(defaults_view(v)) == vendor_spec(name@),
{
    proof {
        reveal_strlit("microsoft");
        reveal_strlit("gmail");
        reveal_strlit("generic");
        reveal_strlit("");
    }
    if str_equal(name, "microsoft") {
        // "common" (not "consumers") is required for the borrowed multi-tenant
        // client to accept a personal account through the auth-code flow.
        let scopes: &'static [&'static str] = &["https://outlook.office.com/IMAP.AccessAsUser.All"];
        let r = VendorDefaults {
            imap_host: "outlook.office365.com",
            imap_port: 993,
            auth_method: AuthMethod::Xoauth2Msal,
            client_id: Some(THUNDERBIRD_CLIENT_ID),
            authority: Some("https://login.microsoftonline.com/common"),
            redirect_uri: Some("https://localhost"),
            scopes,
        };
        assert(defaults_view(r).scopes =~= seq!["https://outlook.office.com/IMAP.AccessAsUser.All"@]);
        Some(r)
    } else if str_equal(name, "gmail") {
        // App-password over IMAP for now; a Google-OAuth path can come later.
        let r = VendorDefaults {
            imap_host: "imap.gmail.com",
            imap_port: 993,
            auth_method: AuthMethod::Password,
            client_id: None,
            authority: None,
            redirect_uri: None,
            scopes: &[],
        };
        assert(defaults_view(r).scopes =~= Seq::<Seq<char>>::empty());
        Some(r)
    } else if str_equal(name, "generic") {
        // No sensible host default - a generic account must set imapHost itself.
        let r = VendorDefaults {
            imap_host: "",
            imap_port: 993,
            auth_method: AuthMethod::Password,
            client_id: None,
            authority: None,
            redirect_uri: None,
            scopes: &[],
        };
        assert(defaults_view(r).scopes =~= Seq::<Seq<char>>::empty());
        Some(r)
    } else {
        None
    }
}

} // verus!
