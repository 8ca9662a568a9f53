//! Release bundles of the desktop client.
use crate::metrics::AsMetricLabel;
use crate::text::{ascii_lower, str_to_ascii_lowercase, str_trim, string_concat, trimmed};
use vstd::prelude::*;

verus! {

/// The kind of installer bundle that a client was installed from.
#[derive(Debug, Clone, Copy, PartialEq, Eq, Structural, Hash)]
pub enum BundleType {
    Unknown,
    AppImage,
    Deb,
    Rpm,
    App,
    Msi,
    Nsis,
}

/// The name of each bundle type.
pub open spec fn bundle_name(b: BundleType) -> Seq<char> {
    match b {
        BundleType::Unknown => "unknown"@,
        BundleType::AppImage => "appimage"@,
        BundleType::Deb => "deb"@,
        BundleType::Rpm => "rpm"@,
        BundleType::App => "app"@,
        BundleType::Msi => "msi"@,
        BundleType::Nsis => "nsis"@,
    }
}

/// The bundle type that a lower-case name names, if any.
pub open spec fn bundle_of_name(t: Seq<char>) -> Option<BundleType> {
    if t == "unknown"@ {
        Some(BundleType::Unknown)
    } else if t == "appimage"@ {
        Some(BundleType::AppImage)
    } else if t == "deb"@ {
        Some(BundleType::Deb)
    } else if t == "rpm"@ {
        Some(BundleType::Rpm)
    } else if t == "app"@ {
        Some(BundleType::App)
    } else if t == "msi"@ {
        Some(BundleType::Msi)
    } else if t == "nsis"@ {
        Some(BundleType::Nsis)
    } else {
        None
    }
}

/// The bundle type that the text `s` names, without regard to surrounding
/// whitespace or ASCII case.
pub open spec fn bundle_of_text(s: Seq<char>) -> Option<BundleType> {
    bundle_of_name(ascii_lower(trimmed(s)))
}

fn text_is(t: &String, lit: &str) -> (r: bool)
    ensures
        r == (t@ == lit@),
{
    let l = lit.to_owned();
    *t == l
}

impl BundleType {
    /// The name of the bundle type.
    pub fn as_str(&self) -> (r: &'static str)
        ensures
            r@ == bundle_name(*self),
    {
        match self {
            BundleType::Unknown => "unknown",
            BundleType::AppImage => "appimage",
            BundleType::Deb => "deb",
            BundleType::Rpm => "rpm",
            BundleType::App => "app",
            BundleType::Msi => "msi",
            BundleType::Nsis => "nsis",
        }
    }

    /// Reads a bundle type from its name, without regard to surrounding
    /// whitespace or ASCII case; otherwise the error names the text.
    pub fn parse(s: &str) -> (r: Result<BundleType, String>)
        ensures
            match bundle_of_text(s@) {
                Some(b) => r == Ok::<BundleType, String>(b),
                None => r matches Err(e) && e@ == "unknown bundle type "@ + s@,
            },
    {
        let t = str_to_ascii_lowercase(str_trim(s));
        if text_is(&t, "unknown") {
            Ok(BundleType::Unknown)
        } else if text_is(&t, "appimage") {
            Ok(BundleType::AppImage)
        } else if text_is(&t, "deb") {
            Ok(BundleType::Deb)
        } else if text_is(&t, "rpm") {
            Ok(BundleType::Rpm)
        } else if text_is(&t, "app") {
            Ok(BundleType::App)
        } else if text_is(&t, "msi") {
            Ok(BundleType::Msi)
        } else if text_is(&t, "nsis") {
            Ok(BundleType::Nsis)
        } else {
            Err(string_concat("unknown bundle type ".to_string(), s))
        }
    }
}

impl Default for BundleType {
    fn default() -> (r: Self)
        ensures
            r == BundleType::Unknown,
    {
        BundleType::Unknown
    }
}

impl AsMetricLabel for BundleType {
    fn as_metric_label(&self) -> (r: &'static str)
        ensures
            r@ == bundle_name(*self),
    {
        self.as_str()
    }
}

/// A text of lower-case ASCII letters has no surrounding whitespace, and
/// lower-casing keeps it.
proof fn lemma_plain_name(s: Seq<char>)
    requires
        forall|i: int| 0 <= i < s.len() ==> 'a' <= #[trigger] s[i] <= 'z',
    ensures
        ascii_lower(trimmed(s)) == s,
{
    if s.len() > 0 {
        assert(!crate::text::is_whitespace(s[0]));
        assert(!crate::text::is_whitespace(s.last()));
    }
    assert(crate::text::trim_start(s) == s);
    assert(crate::text::trim_end(s) == s);
    assert(ascii_lower(s) =~= s);
}

/// Reading the name of a bundle type gives the bundle type back.
pub proof fn lemma_name_parses_back(b: BundleType)
    ensures
        bundle_of_text(bundle_name(b)) == Some(b),
{
    reveal_strlit("unknown");
    reveal_strlit("appimage");
    reveal_strlit("deb");
    reveal_strlit("rpm");
    reveal_strlit("app");
    reveal_strlit("msi");
    reveal_strlit("nsis");
    lemma_plain_name(bundle_name(b));
}

} // verus!
