//! The values exchanged with a host shell, and the two host-facing
//! computations: passphrase advice and human-readable sizes.

use vstd::prelude::*;
use vstd::arithmetic::div_mod::lemma_div_is_ordered;
use vstd::arithmetic::div_mod::lemma_div_is_ordered_by_denominator;
use crate::crypto::Encryptor;
use crate::crypto::PasswordStrength;
use crate::crypto::has_lower;
use crate::crypto::has_numeric;
use crate::crypto::has_special;
use crate::crypto::has_upper;
use crate::crypto::strength_of;
use crate::crypto::strength_score;
use crate::scanner::ScanResult;
use crate::scanner::views_of;
use crate::text::dec_chars;
use crate::text::dec_digit;
use crate::text::dec_str;
use crate::text::digit_char;
use crate::text::chars_to_string;
use vstd::string::StringSliceAdditionalSpecFns;
use vstd::string::StringExecFns;

verus! {

pub const BYTES_PER_KB: u64 = 1024;

pub const BYTES_PER_MB: u64 = 1024 * 1024;

pub const BYTES_PER_GB: u64 = 1024 * 1024 * 1024;

pub const BYTES_PER_TB: u64 = 1024 * 1024 * 1024 * 1024;

/// A request to take stock of a directory.
#[derive(Debug)]
pub struct ScanRequest {
    pub path: String,
    pub compute_hash: bool,
}

/// What a directory scan reports back.
#[derive(Debug)]
pub struct ScanResponse {
    pub success: bool,
    pub total_files: usize,
    pub total_size: u64,
    pub error: Option<String>,
}

/// A request to run a backup.
#[derive(Debug)]
pub struct BackupRequest {
    pub source_dir: String,
    pub dest_dir: String,
    pub encrypt: bool,
    pub password: Option<String>,
    pub compress: bool,
    pub incremental: bool,
}

/// Passphrase advice: the strength label, a score of 1 to 3, and what to
/// improve.
#[derive(Debug)]
pub struct PasswordCheckResponse {
    pub strength: String,
    pub score: u8,
    pub suggestions: Vec<String>,
}

/// The successful response for a finished scan.
pub fn scan_response_of(scan: &ScanResult) -> (r: ScanResponse)
    ensures
        r.success,
        r.total_files == scan.total_files,
        r.total_size == scan.total_size,
        r.error is None,
{
    ScanResponse {
        success: true,
        total_files: scan.total_files,
        total_size: scan.total_size,
        error: None,
    }
}

/// The advice given for a passphrase, in the order the criteria are
/// checked.
pub open spec fn suggestions_spec(byte_len: nat, s: Seq<char>) -> Seq<Seq<char>> {
    let a: Seq<Seq<char>> = if byte_len < 8 {
        seq!["use at least 8 characters"@]
    } else {
        Seq::empty()
    };
    let b = if byte_len < 12 {
        a.push("12 or more characters are recommended"@)
    } else {
        a
    };
    let c = if !has_upper(s) {
        b.push("add an uppercase letter"@)
    } else {
        b
    };
    let d = if !has_lower(s) {
        c.push("add a lowercase letter"@)
    } else {
        c
    };
    let e = if !has_numeric(s) {
        d.push("add a digit"@)
    } else {
        d
    };
    if !has_special(s) {
        e.push("add a symbol"@)
    } else {
        e
    }
}

/// The label of a strength class.
pub open spec fn strength_label(st: PasswordStrength) -> Seq<char> {
    match st {
        PasswordStrength::Weak => "weak"@,
        PasswordStrength::Medium => "medium"@,
        PasswordStrength::Strong => "strong"@,
    }
}

/// The numeric score of a strength class.
pub open spec fn strength_points(st: PasswordStrength) -> u8 {
    match st {
        PasswordStrength::Weak => 1u8,
        PasswordStrength::Medium => 2u8,
        PasswordStrength::Strong => 3u8,
    }
}

/// Classifies a passphrase and says what would make it stronger.
pub fn check_password(password: &str) -> (r: PasswordCheckResponse)
    ensures
        ({
            let st = strength_of(
                strength_score((password.spec_bytes().len() as usize) as nat, password@),
            );
            &&& r.strength@ == strength_label(st)
            &&& r.score == strength_points(st)
        }),
        views_of(r.suggestions@) == suggestions_spec(
            (password.spec_bytes().len() as usize) as nat,
            password@,
        ),
{
    let strength = Encryptor::check_password_strength(password);
    let label = match strength {
        PasswordStrength::Weak => "weak".to_owned(),
        PasswordStrength::Medium => "medium".to_owned(),
        PasswordStrength::Strong => "strong".to_owned(),
    };
    let score: u8 = match strength {
        PasswordStrength::Weak => 1,
        PasswordStrength::Medium => 2,
        PasswordStrength::Strong => 3,
    };
    let byte_len = password.len();
    let chars = crate::text::to_chars(password);
    let (upper, lower, numeric, special) = crate::crypto::scan_char_classes(&chars);
    let mut suggestions: Vec<String> = Vec::new();
    if byte_len < 8 {
        suggestions.push("use at least 8 characters".to_owned());
    }
    if byte_len < 12 {
        suggestions.push("12 or more characters are recommended".to_owned());
    }
    if !upper {
        suggestions.push("add an uppercase letter".to_owned());
    }
    if !lower {
        suggestions.push("add a lowercase letter".to_owned());
    }
    if !numeric {
        suggestions.push("add a digit".to_owned());
    }
    if !special {
        suggestions.push("add a symbol".to_owned());
    }
    proof {
        assert(views_of(suggestions@) =~= suggestions_spec(
            (password.spec_bytes().len() as usize) as nat,
            password@,
        ));
    }
    PasswordCheckResponse { strength: label, score, suggestions }
}

/// A size scaled into a unit, rounded to the nearest hundredth (ties up):
/// the whole part, a dot, two fraction digits, and the unit's suffix.
pub open spec fn scaled_str(bytes: nat, unit: nat, suffix: Seq<char>) -> Seq<char> {
    let h = (bytes * 100 + unit / 2) / unit;
    dec_str(h / 100) + seq![
        '.',
        dec_digit(((h / 10) % 10) as int),
        dec_digit((h % 10) as int),
    ] + suffix
}

/// A byte count rendered for people: 1024-based units with two decimals,
/// plain bytes below one KB.
pub open spec fn format_size_spec(bytes: nat) -> Seq<char> {
    if bytes >= BYTES_PER_TB {
        scaled_str(bytes, BYTES_PER_TB as nat, " TB"@)
    } else if bytes >= BYTES_PER_GB {
        scaled_str(bytes, BYTES_PER_GB as nat, " GB"@)
    } else if bytes >= BYTES_PER_MB {
        scaled_str(bytes, BYTES_PER_MB as nat, " MB"@)
    } else if bytes >= BYTES_PER_KB {
        scaled_str(bytes, BYTES_PER_KB as nat, " KB"@)
    } else {
        dec_str(bytes) + " bytes"@
    }
}

fn format_scaled(bytes: u64, unit: u64, suffix: &str) -> (r: String)
    requires
        1024 <= unit,
    ensures
        r@ == scaled_str(bytes as nat, unit as nat, suffix@),
{
    let h: u128 = ((bytes as u128) * 100 + ((unit / 2) as u128)) / (unit as u128);
    proof {
        let x = (bytes as u128 * 100 + (unit / 2) as u128) as int;
        lemma_div_is_ordered_by_denominator(x, 1024, unit as int);
        lemma_div_is_ordered(x, u64::MAX as int * 100 + u64::MAX as int, 1024);
        assert(h <= u64::MAX as u128);
    }
    let whole = (h / 100) as u64;
    let d1 = ((h / 10) % 10) as u64;
    let d2 = (h % 10) as u64;
    let mut chars = dec_chars(whole);
    chars.push('.');
    chars.push(digit_char(d1));
    chars.push(digit_char(d2));
    let mut out = chars_to_string(&chars);
    out.append(suffix);
    proof {
        let hn = ((bytes as nat) * 100 + (unit as nat) / 2) / (unit as nat);
        assert(h as nat == hn);
        assert(out@ =~= scaled_str(bytes as nat, unit as nat, suffix@));
    }
    out
}

/// Renders a byte count for people: two-decimal 1024-based units from KB to
/// TB, plain bytes below one KB.
pub fn format_file_size(bytes: u64) -> (r: String)
    ensures
        r@ == format_size_spec(bytes as nat),
{
    if bytes >= BYTES_PER_TB {
        format_scaled(bytes, BYTES_PER_TB, " TB")
    } else if bytes >= BYTES_PER_GB {
        format_scaled(bytes, BYTES_PER_GB, " GB")
    } else if bytes >= BYTES_PER_MB {
        format_scaled(bytes, BYTES_PER_MB, " MB")
    } else if bytes >= BYTES_PER_KB {
        format_scaled(bytes, BYTES_PER_KB, " KB")
    } else {
        let chars = dec_chars(bytes);
        let mut out = chars_to_string(&chars);
        out.append(" bytes");
        proof {
            assert(out@ =~= dec_str(bytes as nat) + " bytes"@);
        }
        out
    }
}

} // verus!
