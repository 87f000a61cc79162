//! Short descriptions for the "globally defined variables" from the UEFI
//! specification (the `8be4df61-93ca-11d2-aa0d-00e098032b8c` namespace).
//! These are the ones every UEFI implementation shares meaning for; anything
//! outside this namespace is vendor-specific and has no meaning to guess.
use vstd::prelude::*;
use vstd::string::StrSliceExecFns;

use crate::text::{starts_with, str_eq, str_starts_with};

verus! {

/// The description of a well-known global variable named exactly `name`.
pub open spec fn spec_named(name: Seq<char>) -> Option<&'static str> {
    if name == "BootOrder"@ {
        Some("Ordered list of Boot#### option numbers: the firmware boot menu's order.")
    } else if name == "BootNext"@ {
        Some("One-time override: the Boot#### option to try on the very next boot only.")
    } else if name == "BootCurrent"@ {
        Some("The Boot#### option number that was used for the current boot.")
    } else if name == "BootOptionSupport"@ {
        Some("Bitmask of boot option features the firmware supports (app boot, network boot, ...).")
    } else if name == "DriverOrder"@ {
        Some("Ordered list of Driver#### option numbers: UEFI driver load order.")
    } else if name == "Timeout"@ {
        Some("Boot manager timeout, in seconds, before the default option is launched.")
    } else if name == "ConIn"@ {
        Some("Device path of the active console input device.")
    } else if name == "ConOut"@ {
        Some("Device path of the active console output device.")
    } else if name == "ErrOut"@ {
        Some("Device path of the active console error-output device.")
    } else if name == "ConInDev"@ {
        Some("Device paths of every console input device the firmware found.")
    } else if name == "ConOutDev"@ {
        Some("Device paths of every console output device the firmware found.")
    } else if name == "ErrOutDev"@ {
        Some("Device paths of every console error-output device the firmware found.")
    } else if name == "Lang"@ {
        Some("Deprecated: current platform language as an ISO 639-2 code (see PlatformLang).")
    } else if name == "LangCodes"@ {
        Some("Deprecated: supported ISO 639-2 language codes (see PlatformLangCodes).")
    } else if name == "PlatformLang"@ {
        Some("Current platform language, as an RFC 4646 language tag.")
    } else if name == "PlatformLangCodes"@ {
        Some("Language tags the platform firmware's UI supports (RFC 4646).")
    } else if name == "SecureBoot"@ {
        Some("Read-only: 1 if Secure Boot signature verification is currently enforced.")
    } else if name == "SetupMode"@ {
        Some("Read-only: 1 if no Platform Key is enrolled, so image verification isn't enforced.")
    } else if name == "AuditMode"@ {
        Some("1 if in audit mode: signature checks are logged, but not enforced.")
    } else if name == "DeployedMode"@ {
        Some("1 if in deployed mode: a locked-down Secure Boot state per spec.")
    } else if name == "PK"@ {
        Some("The Platform Key: root of trust for Secure Boot key management.")
    } else if name == "KEK"@ {
        Some("Key Exchange Key database: authorizes updates to db/dbx.")
    } else if name == "db"@ {
        Some("Authorized signature database for Secure Boot image verification.")
    } else if name == "dbx"@ {
        Some("Forbidden signature database: revoked keys/hashes Secure Boot must reject.")
    } else if name == "dbt"@ {
        Some("Timestamp signature database, used to validate time-stamping certificates.")
    } else if name == "dbr"@ {
        Some("Recovery signature database, used during OS recovery boot paths.")
    } else if name == "VendorKeys"@ {
        Some("Read-only: 1 if only firmware-default Secure Boot keys are enrolled.")
    } else if name == "OsIndications"@ {
        Some("OS-set requests to firmware for the next boot (e.g. \"boot to firmware UI\").")
    } else if name == "OsIndicationsSupported"@ {
        Some("Bitmask of OsIndications features this firmware supports.")
    } else if name == "HwErrRecSupport"@ {
        Some("Level of hardware error record persistence the firmware supports.")
    } else if name == "MemoryTypeInformation"@ {
        Some("Hints on how much memory of each UEFI memory type to reserve next boot.")
    } else if name == "SignatureSupport"@ {
        Some("Signature types the firmware supports in db/dbx entries.")
    } else {
        None
    }
}

/// Every global variable the UEFI specification defines that this table
/// knows (the boot manager's, console, language, Secure Boot key and mode,
/// OS-indication and platform variables) is described when read from the
/// global namespace, each with its own description.
pub proof fn lemma_global_names_described()
    ensures
        spec_describe("BootOrder"@, true) == Some("Ordered list of Boot#### option numbers: the firmware boot menu's order."),
        spec_describe("BootNext"@, true) == Some("One-time override: the Boot#### option to try on the very next boot only."),
        spec_describe("BootCurrent"@, true) == Some("The Boot#### option number that was used for the current boot."),
        spec_describe("BootOptionSupport"@, true) == Some("Bitmask of boot option features the firmware supports (app boot, network boot, ...)."),
        spec_describe("DriverOrder"@, true) == Some("Ordered list of Driver#### option numbers: UEFI driver load order."),
        spec_describe("Timeout"@, true) == Some("Boot manager timeout, in seconds, before the default option is launched."),
        spec_describe("ConIn"@, true) == Some("Device path of the active console input device."),
        spec_describe("ConOut"@, true) == Some("Device path of the active console output device."),
        spec_describe("ErrOut"@, true) == Some("Device path of the active console error-output device."),
        spec_describe("ConInDev"@, true) == Some("Device paths of every console input device the firmware found."),
        spec_describe("ConOutDev"@, true) == Some("Device paths of every console output device the firmware found."),
        spec_describe("ErrOutDev"@, true) == Some("Device paths of every console error-output device the firmware found."),
        spec_describe("Lang"@, true) == Some("Deprecated: current platform language as an ISO 639-2 code (see PlatformLang)."),
        spec_describe("LangCodes"@, true) == Some("Deprecated: supported ISO 639-2 language codes (see PlatformLangCodes)."),
        spec_describe("PlatformLang"@, true) == Some("Current platform language, as an RFC 4646 language tag."),
        spec_describe("PlatformLangCodes"@, true) == Some("Language tags the platform firmware's UI supports (RFC 4646)."),
        spec_describe("SecureBoot"@, true) == Some("Read-only: 1 if Secure Boot signature verification is currently enforced."),
        spec_describe("SetupMode"@, true) == Some("Read-only: 1 if no Platform Key is enrolled, so image verification isn't enforced."),
        spec_describe("AuditMode"@, true) == Some("1 if in audit mode: signature checks are logged, but not enforced."),
        spec_describe("DeployedMode"@, true) == Some("1 if in deployed mode: a locked-down Secure Boot state per spec."),
        spec_describe("PK"@, true) == Some("The Platform Key: root of trust for Secure Boot key management."),
        spec_describe("KEK"@, true) == Some("Key Exchange Key database: authorizes updates to db/dbx."),
        spec_describe("db"@, true) == Some("Authorized signature database for Secure Boot image verification."),
        spec_describe("dbx"@, true) == Some("Forbidden signature database: revoked keys/hashes Secure Boot must reject."),
        spec_describe("dbt"@, true) == Some("Timestamp signature database, used to validate time-stamping certificates."),
        spec_describe("dbr"@, true) == Some("Recovery signature database, used during OS recovery boot paths."),
        spec_describe("VendorKeys"@, true) == Some("Read-only: 1 if only firmware-default Secure Boot keys are enrolled."),
        spec_describe("OsIndications"@, true) == Some("OS-set requests to firmware for the next boot (e.g. \"boot to firmware UI\")."),
        spec_describe("OsIndicationsSupported"@, true) == Some("Bitmask of OsIndications features this firmware supports."),
        spec_describe("HwErrRecSupport"@, true) == Some("Level of hardware error record persistence the firmware supports."),
        spec_describe("MemoryTypeInformation"@, true) == Some("Hints on how much memory of each UEFI memory type to reserve next boot."),
        spec_describe("SignatureSupport"@, true) == Some("Signature types the firmware supports in db/dbx entries."),
{
    reveal_strlit("BootOrder");
    reveal_strlit("BootNext");
    reveal_strlit("BootCurrent");
    reveal_strlit("BootOptionSupport");
    reveal_strlit("DriverOrder");
    reveal_strlit("Timeout");
    reveal_strlit("ConIn");
    reveal_strlit("ConOut");
    reveal_strlit("ErrOut");
    reveal_strlit("ConInDev");
    reveal_strlit("ConOutDev");
    reveal_strlit("ErrOutDev");
    reveal_strlit("Lang");
    reveal_strlit("LangCodes");
    reveal_strlit("PlatformLang");
    reveal_strlit("PlatformLangCodes");
    reveal_strlit("SecureBoot");
    reveal_strlit("SetupMode");
    reveal_strlit("AuditMode");
    reveal_strlit("DeployedMode");
    reveal_strlit("PK");
    reveal_strlit("KEK");
    reveal_strlit("db");
    reveal_strlit("dbx");
    reveal_strlit("dbt");
    reveal_strlit("dbr");
    reveal_strlit("VendorKeys");
    reveal_strlit("OsIndications");
    reveal_strlit("OsIndicationsSupported");
    reveal_strlit("HwErrRecSupport");
    reveal_strlit("MemoryTypeInformation");
    reveal_strlit("SignatureSupport");
    assert("BootOrder"@.len() == 9 && "BootOrder"@[0] == 'B');
    assert("BootNext"@.len() == 8 && "BootNext"@[0] == 'B');
    assert("BootCurrent"@.len() == 11 && "BootCurrent"@[0] == 'B');
    assert("BootOptionSupport"@.len() == 17 && "BootOptionSupport"@[0] == 'B');
    assert("DriverOrder"@.len() == 11 && "DriverOrder"@[0] == 'D');
    assert("Timeout"@.len() == 7);
    assert("ConIn"@.len() == 5);
    assert("ConOut"@.len() == 6 && "ConOut"@[0] == 'C');
    assert("ErrOut"@.len() == 6 && "ErrOut"@[0] == 'E');
    assert("ConInDev"@.len() == 8 && "ConInDev"@[0] == 'C');
    assert("ConOutDev"@.len() == 9 && "ConOutDev"@[0] == 'C');
    assert("ErrOutDev"@.len() == 9 && "ErrOutDev"@[0] == 'E');
    assert("Lang"@.len() == 4);
    assert("LangCodes"@.len() == 9 && "LangCodes"@[0] == 'L');
    assert("PlatformLang"@.len() == 12 && "PlatformLang"@[0] == 'P');
    assert("PlatformLangCodes"@.len() == 17 && "PlatformLangCodes"@[0] == 'P');
    assert("SecureBoot"@.len() == 10 && "SecureBoot"@[0] == 'S');
    assert("SetupMode"@.len() == 9 && "SetupMode"@[0] == 'S');
    assert("AuditMode"@.len() == 9 && "AuditMode"@[0] == 'A');
    assert("DeployedMode"@.len() == 12 && "DeployedMode"@[0] == 'D');
    assert("PK"@.len() == 2 && "PK"@[0] == 'P');
    assert("KEK"@.len() == 3 && "KEK"@[0] == 'K');
    assert("db"@.len() == 2 && "db"@[0] == 'd');
    assert("dbx"@.len() == 3 && "dbx"@[0] == 'd' && "dbx"@[1] == 'b' && "dbx"@[2] == 'x');
    assert("dbt"@.len() == 3 && "dbt"@[0] == 'd' && "dbt"@[1] == 'b' && "dbt"@[2] == 't');
    assert("dbr"@.len() == 3 && "dbr"@[0] == 'd' && "dbr"@[1] == 'b' && "dbr"@[2] == 'r');
    assert("VendorKeys"@.len() == 10 && "VendorKeys"@[0] == 'V');
    assert("OsIndications"@.len() == 13);
    assert("OsIndicationsSupported"@.len() == 22);
    assert("HwErrRecSupport"@.len() == 15);
    assert("MemoryTypeInformation"@.len() == 21);
    assert("SignatureSupport"@.len() == 16);
}

/// `c` is an ASCII hexadecimal digit.
pub open spec fn is_hex_digit(c: char) -> bool {
    ('0' <= c <= '9') || ('a' <= c <= 'f') || ('A' <= c <= 'F')
}

/// `name` is `prefix` followed by exactly 4 hex digits (the `Boot####` /
/// `Driver####` / `SysPrep####` naming pattern).
pub open spec fn spec_is_hex_suffixed(name: Seq<char>, prefix: Seq<char>) -> bool {
    &&& starts_with(name, prefix)
    &&& name.len() == prefix.len() + 4
    &&& forall|i: int| prefix.len() <= i < name.len() ==> is_hex_digit(#[trigger] name[i])
}

/// The description `describe` gives `name`: none outside the global
/// namespace; otherwise the named variable's, then the load-option
/// patterns', then capsule state's.
pub open spec fn spec_describe(name: Seq<char>, is_global: bool) -> Option<&'static str> {
    if !is_global {
        None
    } else if spec_named(name) is Some {
        spec_named(name)
    } else if spec_is_hex_suffixed(name, "Boot"@) {
        Some("A boot load option: one entry in the firmware's boot menu.")
    } else if spec_is_hex_suffixed(name, "Driver"@) {
        Some("A driver load option: a UEFI driver the firmware can load at boot.")
    } else if spec_is_hex_suffixed(name, "SysPrep"@) {
        Some("A system preparation application to run before the boot manager.")
    } else if starts_with(name, "Capsule"@) {
        Some("State for the UEFI capsule update mechanism (firmware updates).")
    } else {
        None
    }
}

/// Outside the global namespace nothing is described; inside it, a name
/// made of `Boot`, `Driver` or `SysPrep` and four hexadecimal digits is a
/// boot load option, a driver load option or a system preparation
/// application respectively.
pub proof fn lemma_load_options_described(name: Seq<char>, digits: Seq<char>)
    requires
        digits.len() == 4,
        forall|i: int| 0 <= i < 4 ==> is_hex_digit(#[trigger] digits[i]),
    ensures
        spec_describe(name, false) is None,
        spec_describe("Boot"@ + digits, true) == Some("A boot load option: one entry in the firmware's boot menu."),
        spec_describe("Driver"@ + digits, true) == Some("A driver load option: a UEFI driver the firmware can load at boot."),
        spec_describe("SysPrep"@ + digits, true) == Some("A system preparation application to run before the boot manager."),
{
    reveal_strlit("Boot");
    reveal_strlit("Driver");
    reveal_strlit("SysPrep");
    reveal_strlit("BootOrder");
    reveal_strlit("BootNext");
    reveal_strlit("BootCurrent");
    reveal_strlit("BootOptionSupport");
    reveal_strlit("DriverOrder");
    reveal_strlit("Timeout");
    reveal_strlit("ConIn");
    reveal_strlit("ConOut");
    reveal_strlit("ErrOut");
    reveal_strlit("ConInDev");
    reveal_strlit("ConOutDev");
    reveal_strlit("ErrOutDev");
    reveal_strlit("Lang");
    reveal_strlit("LangCodes");
    reveal_strlit("PlatformLang");
    reveal_strlit("PlatformLangCodes");
    reveal_strlit("SecureBoot");
    reveal_strlit("SetupMode");
    reveal_strlit("AuditMode");
    reveal_strlit("DeployedMode");
    reveal_strlit("PK");
    reveal_strlit("KEK");
    reveal_strlit("db");
    reveal_strlit("dbx");
    reveal_strlit("dbt");
    reveal_strlit("dbr");
    reveal_strlit("VendorKeys");
    reveal_strlit("OsIndications");
    reveal_strlit("OsIndicationsSupported");
    reveal_strlit("HwErrRecSupport");
    reveal_strlit("MemoryTypeInformation");
    reveal_strlit("SignatureSupport");
    assert("BootOrder"@.len() == 9);
    assert("BootNext"@.len() == 8 && "BootNext"@[0] == 'B' && "BootNext"@[4] == 'N');
    assert("BootCurrent"@.len() == 11 && "BootCurrent"@[0] == 'B' && "BootCurrent"@[4] == 'C');
    assert("BootOptionSupport"@.len() == 17);
    assert("DriverOrder"@.len() == 11 && "DriverOrder"@[0] == 'D' && "DriverOrder"@[4] == 'e');
    assert("Timeout"@.len() == 7);
    assert("ConIn"@.len() == 5);
    assert("ConOut"@.len() == 6);
    assert("ErrOut"@.len() == 6);
    assert("ConInDev"@.len() == 8 && "ConInDev"@[0] == 'C' && "ConInDev"@[4] == 'n');
    assert("ConOutDev"@.len() == 9);
    assert("ErrOutDev"@.len() == 9);
    assert("Lang"@.len() == 4);
    assert("LangCodes"@.len() == 9);
    assert("PlatformLang"@.len() == 12);
    assert("PlatformLangCodes"@.len() == 17);
    assert("SecureBoot"@.len() == 10 && "SecureBoot"@[0] == 'S' && "SecureBoot"@[4] == 'r');
    assert("SetupMode"@.len() == 9);
    assert("AuditMode"@.len() == 9);
    assert("DeployedMode"@.len() == 12);
    assert("PK"@.len() == 2);
    assert("KEK"@.len() == 3);
    assert("db"@.len() == 2);
    assert("dbx"@.len() == 3);
    assert("dbt"@.len() == 3);
    assert("dbr"@.len() == 3);
    assert("VendorKeys"@.len() == 10 && "VendorKeys"@[0] == 'V' && "VendorKeys"@[4] == 'o');
    assert("OsIndications"@.len() == 13);
    assert("OsIndicationsSupported"@.len() == 22);
    assert("HwErrRecSupport"@.len() == 15);
    assert("MemoryTypeInformation"@.len() == 21);
    assert("SignatureSupport"@.len() == 16);
    let b = "Boot"@ + digits;
    let d = "Driver"@ + digits;
    let y = "SysPrep"@ + digits;
    assert(b.take(4) =~= "Boot"@);
    assert(d.take(6) =~= "Driver"@);
    assert(y.take(7) =~= "SysPrep"@);
    assert(b[0] == 'B' && b[4] == digits[0] && is_hex_digit(b[4]));
    assert(d[0] == 'D' && d[4] == 'e');
    assert(y[0] == 'S' && y[4] == 'r');
    assert(spec_named(b) is None);
    assert(spec_named(d) is None);
    assert(spec_named(y) is None);
    assert(spec_is_hex_suffixed(b, "Boot"@));
    assert(!spec_is_hex_suffixed(d, "Boot"@)) by {
        assert(d.take(4)[0] == 'D');
    }
    assert(spec_is_hex_suffixed(d, "Driver"@));
    assert(!spec_is_hex_suffixed(y, "Boot"@)) by {
        assert(y.take(4)[1] == 'y');
    }
    assert(!spec_is_hex_suffixed(y, "Driver"@)) by {
        assert(y.len() != 10);
    }
    assert(spec_is_hex_suffixed(y, "SysPrep"@));
}

/// Looks up a short, human description for a well-known global variable
/// name. Returns `None` for anything not in the global namespace, or not
/// a name we recognize (including vendor-specific variables, which have
/// no standard meaning to describe).
pub fn describe(name: &str, is_global: bool) -> (r: Option<&'static str>)
    ensures
        r == spec_describe(name@, is_global),
{
    if !is_global {
        return None;
    }
    if let Some(desc) = named(name) {
        return Some(desc);
    }
    if is_hex_suffixed(name, "Boot") {
        return Some("A boot load option: one entry in the firmware's boot menu.");
    }
    if is_hex_suffixed(name, "Driver") {
        return Some("A driver load option: a UEFI driver the firmware can load at boot.");
    }
    if is_hex_suffixed(name, "SysPrep") {
        return Some("A system preparation application to run before the boot manager.");
    }
    if str_starts_with(name, "Capsule") {
        return Some("State for the UEFI capsule update mechanism (firmware updates).");
    }
    None
}

fn named(name: &str) -> (r: Option<&'static str>)
    ensures
        r == spec_named(name@),
{
    if str_eq(name, "BootOrder") {
        return Some("Ordered list of Boot#### option numbers: the firmware boot menu's order.");
    }
    if str_eq(name, "BootNext") {
        return Some("One-time override: the Boot#### option to try on the very next boot only.");
    }
    if str_eq(name, "BootCurrent") {
        return Some("The Boot#### option number that was used for the current boot.");
    }
    if str_eq(name, "BootOptionSupport") {
        return Some("Bitmask of boot option features the firmware supports (app boot, network boot, ...).");
    }
    if str_eq(name, "DriverOrder") {
        return Some("Ordered list of Driver#### option numbers: UEFI driver load order.");
    }
    if str_eq(name, "Timeout") {
        return Some("Boot manager timeout, in seconds, before the default option is launched.");
    }
    if str_eq(name, "ConIn") {
        return Some("Device path of the active console input device.");
    }
    if str_eq(name, "ConOut") {
        return Some("Device path of the active console output device.");
    }
    if str_eq(name, "ErrOut") {
        return Some("Device path of the active console error-output device.");
    }
    if str_eq(name, "ConInDev") {
        return Some("Device paths of every console input device the firmware found.");
    }
    if str_eq(name, "ConOutDev") {
        return Some("Device paths of every console output device the firmware found.");
    }
    if str_eq(name, "ErrOutDev") {
        return Some("Device paths of every console error-output device the firmware found.");
    }
    if str_eq(name, "Lang") {
        return Some("Deprecated: current platform language as an ISO 639-2 code (see PlatformLang).");
    }
    if str_eq(name, "LangCodes") {
        return Some("Deprecated: supported ISO 639-2 language codes (see PlatformLangCodes).");
    }
    if str_eq(name, "PlatformLang") {
        return Some("Current platform language, as an RFC 4646 language tag.");
    }
    if str_eq(name, "PlatformLangCodes") {
        return Some("Language tags the platform firmware's UI supports (RFC 4646).");
    }
    if str_eq(name, "SecureBoot") {
        return Some("Read-only: 1 if Secure Boot signature verification is currently enforced.");
    }
    if str_eq(name, "SetupMode") {
        return Some("Read-only: 1 if no Platform Key is enrolled, so image verification isn't enforced.");
    }
    if str_eq(name, "AuditMode") {
        return Some("1 if in audit mode: signature checks are logged, but not enforced.");
    }
    if str_eq(name, "DeployedMode") {
        return Some("1 if in deployed mode: a locked-down Secure Boot state per spec.");
    }
    if str_eq(name, "PK") {
        return Some("The Platform Key: root of trust for Secure Boot key management.");
    }
    if str_eq(name, "KEK") {
        return Some("Key Exchange Key database: authorizes updates to db/dbx.");
    }
    if str_eq(name, "db") {
        return Some("Authorized signature database for Secure Boot image verification.");
    }
    if str_eq(name, "dbx") {
        return Some("Forbidden signature database: revoked keys/hashes Secure Boot must reject.");
    }
    if str_eq(name, "dbt") {
        return Some("Timestamp signature database, used to validate time-stamping certificates.");
    }
    if str_eq(name, "dbr") {
        return Some("Recovery signature database, used during OS recovery boot paths.");
    }
    if str_eq(name, "VendorKeys") {
        return Some("Read-only: 1 if only firmware-default Secure Boot keys are enrolled.");
    }
    if str_eq(name, "OsIndications") {
        return Some("OS-set requests to firmware for the next boot (e.g. \"boot to firmware UI\").");
    }
    if str_eq(name, "OsIndicationsSupported") {
        return Some("Bitmask of OsIndications features this firmware supports.");
    }
    if str_eq(name, "HwErrRecSupport") {
        return Some("Level of hardware error record persistence the firmware supports.");
    }
    if str_eq(name, "MemoryTypeInformation") {
        return Some("Hints on how much memory of each UEFI memory type to reserve next boot.");
    }
    if str_eq(name, "SignatureSupport") {
        return Some("Signature types the firmware supports in db/dbx entries.");
    }
    None
}

fn is_hex_digit_char(c: char) -> (r: bool)
    ensures
        r == is_hex_digit(c),
{
    ('0' <= c && c <= '9') || ('a' <= c && c <= 'f') || ('A' <= c && c <= 'F')
}

/// True if `name` is `prefix` followed by exactly 4 hex digits (the
/// `Boot####` / `Driver####` / `SysPrep####` naming pattern).
fn is_hex_suffixed(name: &str, prefix: &str) -> (r: bool)
    ensures
        r == spec_is_hex_suffixed(name@, prefix@),
{
    if !str_starts_with(name, prefix) {
        return false;
    }
    let start = prefix.unicode_len();
    let n = name.unicode_len();
    if n < start || n - start != 4 {
        return false;
    }
    let mut i = start;
    while i < n
        invariant
            start == prefix@.len(),
            n == name@.len(),
            start <= i <= n,
            forall|j: int| start <= j < i ==> is_hex_digit(#[trigger] name@[j]),
        decreases n - i,
    {
        if !is_hex_digit_char(name.get_char(i)) {
            return false;
        }
        i += 1;
    }
    true
}

} // verus!
