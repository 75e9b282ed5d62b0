//! Diagnostics: a stable code, a severity, a message, and the range it
//! points at.

use vstd::prelude::*;

use crate::syntax::TextRange;

verus! {

/// The diagnostic codes the passes of this library raise.
#[allow(non_camel_case_types)]
#[derive(Debug, Clone, Copy, PartialEq, Eq, Structural)]
pub enum DiagCode {
    /// An informational or unclassified diagnostic with no code.
    NONE,
    TYPL_003,
    TYPL_004,
    TYPL_005,
    TYPL_006,
    TYPL_007,
    TYPL_008,
    TYPL_009,
    TYPL_101,
    TYPL_102,
    TYPL_103,
    TYPL_104,
    TYPL_105,
    TYPL_106,
    TYPL_108,
    TYPL_109,
    TYPL_110,
    TYPL_111,
    TYPL_115,
    TYPL_201,
    TYPL_202,
    TYPL_203,
    TYPL_204,
    TYPL_206,
    TYPL_207,
    TYPL_208,
    TYPL_209,
    TYPL_210,
    TYPL_211,
    TYPL_212,
    TYPL_213,
    TYPL_214,
    TYPL_301,
    TYPL_404,
    TYPL_405,
    RIDL_104,
    RIDL_105,
    RIDL_106,
    RIDL_109,
    RIDL_110,
    RIDL_141,
    RIDL_143,
    RIDL_201,
    RIDL_202,
    RIDL_301,
    RIDL_302,
    RIDL_303,
    RIDL_304,
    RIDL_305,
    RIDL_306,
    RIDL_307,
    RIDL_308,
    RIDL_401,
    RIDL_402,
    RIDL_404,
    RIDL_405,
    RIDL_406,
    FORM_102,
    FORM_106,
    FORM_107,
    FORM_108,
    MANI_009,
}

pub open spec fn code_text(code: DiagCode) -> Seq<char> {
    match code {
        DiagCode::NONE => ""@,
        DiagCode::TYPL_003 => "TYPL-003"@,
        DiagCode::TYPL_004 => "TYPL-004"@,
        DiagCode::TYPL_005 => "TYPL-005"@,
        DiagCode::TYPL_006 => "TYPL-006"@,
        DiagCode::TYPL_007 => "TYPL-007"@,
        DiagCode::TYPL_008 => "TYPL-008"@,
        DiagCode::TYPL_009 => "TYPL-009"@,
        DiagCode::TYPL_101 => "TYPL-101"@,
        DiagCode::TYPL_102 => "TYPL-102"@,
        DiagCode::TYPL_103 => "TYPL-103"@,
        DiagCode::TYPL_104 => "TYPL-104"@,
        DiagCode::TYPL_105 => "TYPL-105"@,
        DiagCode::TYPL_106 => "TYPL-106"@,
        DiagCode::TYPL_108 => "TYPL-108"@,
        DiagCode::TYPL_109 => "TYPL-109"@,
        DiagCode::TYPL_110 => "TYPL-110"@,
        DiagCode::TYPL_111 => "TYPL-111"@,
        DiagCode::TYPL_115 => "TYPL-115"@,
        DiagCode::TYPL_201 => "TYPL-201"@,
        DiagCode::TYPL_202 => "TYPL-202"@,
        DiagCode::TYPL_203 => "TYPL-203"@,
        DiagCode::TYPL_204 => "TYPL-204"@,
        DiagCode::TYPL_206 => "TYPL-206"@,
        DiagCode::TYPL_207 => "TYPL-207"@,
        DiagCode::TYPL_208 => "TYPL-208"@,
        DiagCode::TYPL_209 => "TYPL-209"@,
        DiagCode::TYPL_210 => "TYPL-210"@,
        DiagCode::TYPL_211 => "TYPL-211"@,
        DiagCode::TYPL_212 => "TYPL-212"@,
        DiagCode::TYPL_213 => "TYPL-213"@,
        DiagCode::TYPL_214 => "TYPL-214"@,
        DiagCode::TYPL_301 => "TYPL-301"@,
        DiagCode::TYPL_404 => "TYPL-404"@,
        DiagCode::TYPL_405 => "TYPL-405"@,
        DiagCode::RIDL_104 => "RIDL-104"@,
        DiagCode::RIDL_105 => "RIDL-105"@,
        DiagCode::RIDL_106 => "RIDL-106"@,
        DiagCode::RIDL_109 => "RIDL-109"@,
        DiagCode::RIDL_110 => "RIDL-110"@,
        DiagCode::RIDL_141 => "RIDL-141"@,
        DiagCode::RIDL_143 => "RIDL-143"@,
        DiagCode::RIDL_201 => "RIDL-201"@,
        DiagCode::RIDL_202 => "RIDL-202"@,
        DiagCode::RIDL_301 => "RIDL-301"@,
        DiagCode::RIDL_302 => "RIDL-302"@,
        DiagCode::RIDL_303 => "RIDL-303"@,
        DiagCode::RIDL_304 => "RIDL-304"@,
        DiagCode::RIDL_305 => "RIDL-305"@,
        DiagCode::RIDL_306 => "RIDL-306"@,
        DiagCode::RIDL_307 => "RIDL-307"@,
        DiagCode::RIDL_308 => "RIDL-308"@,
        DiagCode::RIDL_401 => "RIDL-401"@,
        DiagCode::RIDL_402 => "RIDL-402"@,
        DiagCode::RIDL_404 => "RIDL-404"@,
        DiagCode::RIDL_405 => "RIDL-405"@,
        DiagCode::RIDL_406 => "RIDL-406"@,
        DiagCode::FORM_102 => "FORM-102"@,
        DiagCode::FORM_106 => "FORM-106"@,
        DiagCode::FORM_107 => "FORM-107"@,
        DiagCode::FORM_108 => "FORM-108"@,
        DiagCode::MANI_009 => "MANI-009"@,
    }
}

impl DiagCode {
    /// The code as written in reports (`RIDL-306`); empty for [`DiagCode::NONE`].
    pub fn as_str(&self) -> (r: &'static str)
        ensures
            r@ == code_text(*self),
    {
        match self {
            DiagCode::NONE => "",
            DiagCode::TYPL_003 => "TYPL-003",
            DiagCode::TYPL_004 => "TYPL-004",
            DiagCode::TYPL_005 => "TYPL-005",
            DiagCode::TYPL_006 => "TYPL-006",
            DiagCode::TYPL_007 => "TYPL-007",
            DiagCode::TYPL_008 => "TYPL-008",
            DiagCode::TYPL_009 => "TYPL-009",
            DiagCode::TYPL_101 => "TYPL-101",
            DiagCode::TYPL_102 => "TYPL-102",
            DiagCode::TYPL_103 => "TYPL-103",
            DiagCode::TYPL_104 => "TYPL-104",
            DiagCode::TYPL_105 => "TYPL-105",
            DiagCode::TYPL_106 => "TYPL-106",
            DiagCode::TYPL_108 => "TYPL-108",
            DiagCode::TYPL_109 => "TYPL-109",
            DiagCode::TYPL_110 => "TYPL-110",
            DiagCode::TYPL_111 => "TYPL-111",
            DiagCode::TYPL_115 => "TYPL-115",
            DiagCode::TYPL_201 => "TYPL-201",
            DiagCode::TYPL_202 => "TYPL-202",
            DiagCode::TYPL_203 => "TYPL-203",
            DiagCode::TYPL_204 => "TYPL-204",
            DiagCode::TYPL_206 => "TYPL-206",
            DiagCode::TYPL_207 => "TYPL-207",
            DiagCode::TYPL_208 => "TYPL-208",
            DiagCode::TYPL_209 => "TYPL-209",
            DiagCode::TYPL_210 => "TYPL-210",
            DiagCode::TYPL_211 => "TYPL-211",
            DiagCode::TYPL_212 => "TYPL-212",
            DiagCode::TYPL_213 => "TYPL-213",
            DiagCode::TYPL_214 => "TYPL-214",
            DiagCode::TYPL_301 => "TYPL-301",
            DiagCode::TYPL_404 => "TYPL-404",
            DiagCode::TYPL_405 => "TYPL-405",
            DiagCode::RIDL_104 => "RIDL-104",
            DiagCode::RIDL_105 => "RIDL-105",
            DiagCode::RIDL_106 => "RIDL-106",
            DiagCode::RIDL_109 => "RIDL-109",
            DiagCode::RIDL_110 => "RIDL-110",
            DiagCode::RIDL_141 => "RIDL-141",
            DiagCode::RIDL_143 => "RIDL-143",
            DiagCode::RIDL_201 => "RIDL-201",
            DiagCode::RIDL_202 => "RIDL-202",
            DiagCode::RIDL_301 => "RIDL-301",
            DiagCode::RIDL_302 => "RIDL-302",
            DiagCode::RIDL_303 => "RIDL-303",
            DiagCode::RIDL_304 => "RIDL-304",
            DiagCode::RIDL_305 => "RIDL-305",
            DiagCode::RIDL_306 => "RIDL-306",
            DiagCode::RIDL_307 => "RIDL-307",
            DiagCode::RIDL_308 => "RIDL-308",
            DiagCode::RIDL_401 => "RIDL-401",
            DiagCode::RIDL_402 => "RIDL-402",
            DiagCode::RIDL_404 => "RIDL-404",
            DiagCode::RIDL_405 => "RIDL-405",
            DiagCode::RIDL_406 => "RIDL-406",
            DiagCode::FORM_102 => "FORM-102",
            DiagCode::FORM_106 => "FORM-106",
            DiagCode::FORM_107 => "FORM-107",
            DiagCode::FORM_108 => "FORM-108",
            DiagCode::MANI_009 => "MANI-009",
        }
    }
}

#[derive(Debug, Clone, Copy, PartialEq, Eq, Structural)]
pub enum Severity {
    Error,
    Warning,
    Info,
}

/// The file a diagnostic points into: an index into the package's file list,
/// or [`DETACHED`] when the pass that raised it saw no file.
pub const DETACHED: usize = 0xffff_ffff;

/// One diagnostic.
#[derive(Debug, PartialEq, Eq)]
pub struct Diagnostic {
    pub code: DiagCode,
    pub severity: Severity,
    pub message: String,
    pub file: usize,
    pub range: TextRange,
}

/// What the contracts say of a diagnostic: its code, severity, file and range.
pub open spec fn diag_view(d: Diagnostic) -> (DiagCode, Severity, usize, TextRange) {
    (d.code, d.severity, d.file, d.range)
}

pub open spec fn diags_view(ds: Seq<Diagnostic>) -> Seq<(DiagCode, Severity, usize, TextRange)> {
    ds.map_values(|d: Diagnostic| diag_view(d))
}

/// The messages of a run of diagnostics, in order.
pub open spec fn diag_messages(ds: Seq<Diagnostic>) -> Seq<Seq<char>> {
    ds.map_values(|d: Diagnostic| d.message@)
}

} // verus!
