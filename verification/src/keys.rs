//! The standardized os-release keys, which the parser hands out as shared
//! constants in place of freshly allocated strings.

use vstd::prelude::*;
use vstd::string::StringSliceAdditionalSpecFns;
use vstd::utf8::{is_ascii_chars, is_ascii_chars_encode_utf8};
use crate::order::{
    lemma_precedes_asymmetric, lemma_precedes_transitive, parts_at, precedes, rank, Rank,
};

verus! {

/// The well-known keys, in ascending dictionary order.
pub const COMMON_KEYS: [&'static str; 30] = [
    "ANSI_COLOR",
    "ARCHITECTURE",
    "BUG_REPORT_URL",
    "BUILD_ID",
    "CONFEXT_LEVEL",
    "CONFEXT_SCOPE",
    "CPE_NAME",
    "DEFAULT_HOSTNAME",
    "DOCUMENTATION_URL",
    "HOME_URL",
    "ID",
    "ID_LIKE",
    "IMAGE_ID",
    "IMAGE_VERSION",
    "LOGO",
    "NAME",
    "PORTABLE_PREFIXES",
    "PRETTY_NAME",
    "PRIVACY_POLICY_URL",
    "SUPPORT_END",
    "SUPPORT_URL",
    "SYSEXT_LEVEL",
    "SYSEXT_SCOPE",
    "VARIANT",
    "VARIANT_ID",
    "VENDOR_NAME",
    "VENDOR_URL",
    "VERSION",
    "VERSION_CODENAME",
    "VERSION_ID",
];

/// Whether `key` is one of the well-known keys, character for character.
pub open spec fn is_common_key(key: Seq<char>) -> bool {
    exists|i: int| 0 <= i < COMMON_KEYS@.len() && (#[trigger] COMMON_KEYS@[i])@ == key
}

/// The bytes of the well-known key at position `i` of the table.
pub open spec fn key_bytes(i: int) -> Seq<u8> {
    COMMON_KEYS@[i].spec_bytes()
}

/// Two strings of ASCII characters that agree on their first `k` characters
/// and part there in favour of `a` are in dictionary order.
proof fn lemma_ascii_precedes(a: &str, b: &str, k: int)
    requires
        is_ascii_chars(a@),
        is_ascii_chars(b@),
        0 <= k <= a@.len(),
        k < b@.len(),
        forall|j: int| 0 <= j < k ==> a@[j] == b@[j],
        k < a@.len() ==> (a@[k] as u32) < (b@[k] as u32),
    ensures
        precedes(a.spec_bytes(), b.spec_bytes()),
{
    is_ascii_chars_encode_utf8(a@);
    is_ascii_chars_encode_utf8(b@);
    assert(parts_at(a.spec_bytes(), b.spec_bytes(), k));
}

/// Each well-known key comes before the next one of the table.
proof fn lemma_neighbours_ascend(i: int)
    requires
        0 <= i < COMMON_KEYS@.len() - 1,
    ensures
        precedes(key_bytes(i), key_bytes(i + 1)),
{
    if i == 0 {
        reveal_strlit("ANSI_COLOR");
        reveal_strlit("ARCHITECTURE");
        lemma_ascii_precedes("ANSI_COLOR", "ARCHITECTURE", 1);
    } else if i == 1 {
        reveal_strlit("ARCHITECTURE");
        reveal_strlit("BUG_REPORT_URL");
        lemma_ascii_precedes("ARCHITECTURE", "BUG_REPORT_URL", 0);
    } else if i == 2 {
        reveal_strlit("BUG_REPORT_URL");
        reveal_strlit("BUILD_ID");
        lemma_ascii_precedes("BUG_REPORT_URL", "BUILD_ID", 2);
    } else if i == 3 {
        reveal_strlit("BUILD_ID");
        reveal_strlit("CONFEXT_LEVEL");
        lemma_ascii_precedes("BUILD_ID", "CONFEXT_LEVEL", 0);
    } else if i == 4 {
        reveal_strlit("CONFEXT_LEVEL");
        reveal_strlit("CONFEXT_SCOPE");
        lemma_ascii_precedes("CONFEXT_LEVEL", "CONFEXT_SCOPE", 8);
    } else if i == 5 {
        reveal_strlit("CONFEXT_SCOPE");
        reveal_strlit("CPE_NAME");
        lemma_ascii_precedes("CONFEXT_SCOPE", "CPE_NAME", 1);
    } else if i == 6 {
        reveal_strlit("CPE_NAME");
        reveal_strlit("DEFAULT_HOSTNAME");
        lemma_ascii_precedes("CPE_NAME", "DEFAULT_HOSTNAME", 0);
    } else if i == 7 {
        reveal_strlit("DEFAULT_HOSTNAME");
        reveal_strlit("DOCUMENTATION_URL");
        lemma_ascii_precedes("DEFAULT_HOSTNAME", "DOCUMENTATION_URL", 1);
    } else if i == 8 {
        reveal_strlit("DOCUMENTATION_URL");
        reveal_strlit("HOME_URL");
        lemma_ascii_precedes("DOCUMENTATION_URL", "HOME_URL", 0);
    } else if i == 9 {
        reveal_strlit("HOME_URL");
        reveal_strlit("ID");
        lemma_ascii_precedes("HOME_URL", "ID", 0);
    } else if i == 10 {
        reveal_strlit("ID");
        reveal_strlit("ID_LIKE");
        lemma_ascii_precedes("ID", "ID_LIKE", 2);
    } else if i == 11 {
        reveal_strlit("ID_LIKE");
        reveal_strlit("IMAGE_ID");
        lemma_ascii_precedes("ID_LIKE", "IMAGE_ID", 1);
    } else if i == 12 {
        reveal_strlit("IMAGE_ID");
        reveal_strlit("IMAGE_VERSION");
        lemma_ascii_precedes("IMAGE_ID", "IMAGE_VERSION", 6);
    } else if i == 13 {
        reveal_strlit("IMAGE_VERSION");
        reveal_strlit("LOGO");
        lemma_ascii_precedes("IMAGE_VERSION", "LOGO", 0);
    } else if i == 14 {
        reveal_strlit("LOGO");
        reveal_strlit("NAME");
        lemma_ascii_precedes("LOGO", "NAME", 0);
    } else if i == 15 {
        reveal_strlit("NAME");
        reveal_strlit("PORTABLE_PREFIXES");
        lemma_ascii_precedes("NAME", "PORTABLE_PREFIXES", 0);
    } else if i == 16 {
        reveal_strlit("PORTABLE_PREFIXES");
        reveal_strlit("PRETTY_NAME");
        lemma_ascii_precedes("PORTABLE_PREFIXES", "PRETTY_NAME", 1);
    } else if i == 17 {
        reveal_strlit("PRETTY_NAME");
        reveal_strlit("PRIVACY_POLICY_URL");
        lemma_ascii_precedes("PRETTY_NAME", "PRIVACY_POLICY_URL", 2);
    } else if i == 18 {
        reveal_strlit("PRIVACY_POLICY_URL");
        reveal_strlit("SUPPORT_END");
        lemma_ascii_precedes("PRIVACY_POLICY_URL", "SUPPORT_END", 0);
    } else if i == 19 {
        reveal_strlit("SUPPORT_END");
        reveal_strlit("SUPPORT_URL");
        lemma_ascii_precedes("SUPPORT_END", "SUPPORT_URL", 8);
    } else if i == 20 {
        reveal_strlit("SUPPORT_URL");
        reveal_strlit("SYSEXT_LEVEL");
        lemma_ascii_precedes("SUPPORT_URL", "SYSEXT_LEVEL", 1);
    } else if i == 21 {
        reveal_strlit("SYSEXT_LEVEL");
        reveal_strlit("SYSEXT_SCOPE");
        lemma_ascii_precedes("SYSEXT_LEVEL", "SYSEXT_SCOPE", 7);
    } else if i == 22 {
        reveal_strlit("SYSEXT_SCOPE");
        reveal_strlit("VARIANT");
        lemma_ascii_precedes("SYSEXT_SCOPE", "VARIANT", 0);
    } else if i == 23 {
        reveal_strlit("VARIANT");
        reveal_strlit("VARIANT_ID");
        lemma_ascii_precedes("VARIANT", "VARIANT_ID", 7);
    } else if i == 24 {
        reveal_strlit("VARIANT_ID");
        reveal_strlit("VENDOR_NAME");
        lemma_ascii_precedes("VARIANT_ID", "VENDOR_NAME", 1);
    } else if i == 25 {
        reveal_strlit("VENDOR_NAME");
        reveal_strlit("VENDOR_URL");
        lemma_ascii_precedes("VENDOR_NAME", "VENDOR_URL", 7);
    } else if i == 26 {
        reveal_strlit("VENDOR_URL");
        reveal_strlit("VERSION");
        lemma_ascii_precedes("VENDOR_URL", "VERSION", 2);
    } else if i == 27 {
        reveal_strlit("VERSION");
        reveal_strlit("VERSION_CODENAME");
        lemma_ascii_precedes("VERSION", "VERSION_CODENAME", 7);
    } else if i == 28 {
        reveal_strlit("VERSION_CODENAME");
        reveal_strlit("VERSION_ID");
        lemma_ascii_precedes("VERSION_CODENAME", "VERSION_ID", 8);
    }
}

/// The table is in strictly ascending order: a key comes before every key
/// that stands later in the table. So no key stands in it twice.
pub proof fn lemma_common_keys_ascend(i: int, j: int)
    requires
        0 <= i < j < COMMON_KEYS@.len(),
    ensures
        precedes(key_bytes(i), key_bytes(j)),
    decreases j - i,
{
    if i + 1 < j {
        lemma_common_keys_ascend(i, j - 1);
        lemma_neighbours_ascend(j - 1);
        lemma_precedes_transitive(key_bytes(i), key_bytes(j - 1), key_bytes(j));
    } else {
        lemma_neighbours_ascend(i);
    }
}

/// The shared constant for `key`, if `key` is well known. The table is
/// searched by bisection.
pub fn common_key(key: &str) -> (r: Option<&'static str>)
    ensures
        match r {
            Some(shared) => shared@ == key@ && is_common_key(key@),
            None => !is_common_key(key@),
        },
{
    let mut low: usize = 0;
    let mut high: usize = COMMON_KEYS.len();
    while low < high
        invariant
            low <= high <= COMMON_KEYS@.len(),
            forall|j: int| 0 <= j < low ==> precedes(#[trigger] key_bytes(j), key.spec_bytes()),
            forall|j: int|
                high <= j < COMMON_KEYS@.len() ==> precedes(
                    key.spec_bytes(),
                    #[trigger] key_bytes(j),
                ),
        decreases high - low,
    {
        let middle = low + (high - low) / 2;
        let candidate: &'static str = COMMON_KEYS[middle];
        match rank(candidate, key) {
            Rank::Same => {
                return Some(candidate);
            },
            Rank::Before => {
                proof {
                    assert forall|j: int| 0 <= j < middle + 1 implies precedes(
                        #[trigger] key_bytes(j),
                        key.spec_bytes(),
                    ) by {
                        if j < middle {
                            lemma_common_keys_ascend(j, middle as int);
                            lemma_precedes_transitive(
                                key_bytes(j),
                                key_bytes(middle as int),
                                key.spec_bytes(),
                            );
                        }
                    }
                }
                low = middle + 1;
            },
            Rank::After => {
                proof {
                    assert forall|j: int| middle <= j < COMMON_KEYS@.len() implies precedes(
                        key.spec_bytes(),
                        #[trigger] key_bytes(j),
                    ) by {
                        if middle < j {
                            lemma_common_keys_ascend(middle as int, j);
                            lemma_precedes_transitive(
                                key.spec_bytes(),
                                key_bytes(middle as int),
                                key_bytes(j),
                            );
                        }
                    }
                }
                high = middle;
            },
        }
    }
    proof {
        assert forall|j: int| 0 <= j < COMMON_KEYS@.len() implies (#[trigger] COMMON_KEYS@[j])@
            != key@ by {
            if j < low {
                lemma_precedes_asymmetric(key_bytes(j), key.spec_bytes());
            } else {
                lemma_precedes_asymmetric(key.spec_bytes(), key_bytes(j));
            }
        }
    }
    None
}

} // verus!
