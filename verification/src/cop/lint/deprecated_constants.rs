//! Lint/DeprecatedConstants: a constant that a Ruby version deprecated,
//! from the configured table or the built-in one, with its replacement.
use vstd::prelude::*;
use vstd::string::StringSliceAdditionalSpecFns;
use crate::ascii::COLON;
use crate::bytes::append;
use crate::diagnostic::{message, Diagnostic, Location};
use crate::text::{bytes_eq, is_utf8, offset_to_line_col, spec_line_col, utf8_valid};

verus! {

pub struct DeprecatedConstants;

/// An entry of the configured `DeprecatedConstants` table.
pub struct ConfiguredConstant {
    pub name: Vec<u8>,
    pub alternative: Option<Vec<u8>>,
    pub deprecated_version: Option<Vec<u8>>,
}

/// What the table says of a constant.
#[derive(PartialEq, Eq)]
pub struct DeprecatedInfo {
    pub alternative: Option<Vec<u8>>,
    pub deprecated_version: Option<Vec<u8>>,
}

/// How the deprecation version compares with the target Ruby version: it
/// does not parse as a number, the target is older, or the deprecation
/// applies.
#[derive(Clone, Copy, PartialEq, Eq, Structural)]
pub enum VersionCheck {
    Unparsable,
    NotYet,
    Applies,
}

/// A constant: a bare one `NAME`, or a path spanning `[start, end)`.
pub enum ConstantRef {
    Read { name: Vec<u8>, start: usize },
    Path { start: usize, end: usize },
}

pub open spec fn lit(s: &str) -> Seq<u8> {
    s.spec_bytes()
}

/// The name without a leading `::`.
pub open spec fn normalized(name: Seq<u8>) -> Seq<u8> {
    if name.len() >= 2 && name[0] == COLON && name[1] == COLON {
        name.subrange(2, name.len() as int)
    } else {
        name
    }
}

/// The built-in table: name, replacement, version.
pub open spec fn builtin_deprecated() -> Seq<(Seq<u8>, Seq<u8>, Seq<u8>)> {
    seq![
        (lit("NIL"), lit("nil"), lit("2.4")),
        (lit("TRUE"), lit("true"), lit("2.4")),
        (lit("FALSE"), lit("false"), lit("2.4")),
        (lit("Net::HTTPServerException"), lit("Net::HTTPClientException"), lit("2.6")),
        (lit("Random::DEFAULT"), lit("Random.new"), lit("3.0")),
        (lit("Struct::Group"), lit("Etc::Group"), lit("3.0")),
        (lit("Struct::Passwd"), lit("Etc::Passwd"), lit("3.0"))
    ]
}

pub open spec fn opt_view(o: Option<Vec<u8>>) -> Option<Seq<u8>> {
    match o {
        Some(v) => Some(v@),
        None => None,
    }
}

/// The first configured entry at or after `k` whose name matches.
pub open spec fn configured_match(cs: Seq<ConfiguredConstant>, name: Seq<u8>, k: int) -> Option<int>
    decreases cs.len() - k,
{
    if k < 0 || k >= cs.len() {
        None
    } else if normalized(cs[k].name@) == normalized(name) {
        Some(k)
    } else {
        configured_match(cs, name, k + 1)
    }
}

/// The first built-in entry at or after `k` whose name matches.
pub open spec fn builtin_match(name: Seq<u8>, k: int) -> Option<int>
    decreases builtin_deprecated().len() - k,
{
    if k < 0 || k >= builtin_deprecated().len() {
        None
    } else if builtin_deprecated()[k].0 == normalized(name) {
        Some(k)
    } else {
        builtin_match(name, k + 1)
    }
}

/// The replacement and version of a constant: from the first configured
/// entry that names it, else from the built-in table. As pairs of views.
pub open spec fn spec_deprecated_info(cs: Seq<ConfiguredConstant>, name: Seq<u8>) -> Option<(Option<Seq<u8>>, Option<Seq<u8>>)> {
    match configured_match(cs, name, 0) {
        Some(k) => Some((opt_view(cs[k].alternative), opt_view(cs[k].deprecated_version))),
        None => match builtin_match(name, 0) {
            Some(k) => Some((Some(builtin_deprecated()[k].1), Some(builtin_deprecated()[k].2))),
            None => None,
        },
    }
}

/// The message for constant `name` with replacement `alt` and version
/// `version`, given how the version compares with the target.
pub open spec fn spec_deprecated_message(name: Seq<u8>, alt: Option<Seq<u8>>, version: Option<Seq<u8>>, check: VersionCheck) -> Option<
    Seq<u8>,
> {
    if version is Some && check != VersionCheck::Applies {
        None
    } else {
        match (alt, version) {
            (Some(a), Some(v)) => Some(lit("Use `") + a + lit("` instead of `") + name + lit("`, deprecated since Ruby ") + v + lit(".")),
            (Some(a), None) => Some(lit("Use `") + a + lit("` instead of `") + name + lit("`.")),
            (None, Some(v)) => Some(lit("Do not use `") + name + lit("`, deprecated since Ruby ") + v + lit(".")),
            (None, None) => Some(lit("Do not use `") + name + lit("`.")),
        }
    }
}

/// The text of a constant, when it is UTF-8, and where it starts.
pub open spec fn constant_text(s: Seq<u8>, c: ConstantRef) -> Option<(Seq<u8>, int)> {
    match c {
        ConstantRef::Read { name, start } => if is_utf8(name@) { Some((name@, start as int)) } else { None },
        ConstantRef::Path { start, end } => if is_utf8(s.subrange(start as int, end as int)) {
            Some((s.subrange(start as int, end as int), start as int))
        } else {
            None
        },
    }
}

/// The name without a leading `::`.
pub fn normalize_constant_name(name: &[u8]) -> (r: &[u8])
    ensures
        r@ == normalized(name@),
{
    if name.len() >= 2 && name[0] == COLON && name[1] == COLON {
        &name[2..name.len()]
    } else {
        name
    }
}

fn opt_copy(o: &Option<Vec<u8>>) -> (r: Option<Vec<u8>>)
    ensures
        opt_view(r) == opt_view(*o),
{
    match o {
        Some(v) => Some(vstd::slice::slice_to_vec(v.as_slice())),
        None => None,
    }
}

/// What the tables say of constant `name`.
pub fn deprecated_info(name: &[u8], configured: &Vec<ConfiguredConstant>) -> (r: Option<DeprecatedInfo>)
    ensures
        match spec_deprecated_info(configured@, name@) {
            Some((a, v)) => r matches Some(i) && opt_view(i.alternative) == a && opt_view(i.deprecated_version) == v,
            None => r is None,
        },
{
    let n = normalize_constant_name(name);
    let mut k: usize = 0;
    while k < configured.len()
        invariant
            k <= configured@.len(),
            n@ == normalized(name@),
            configured_match(configured@, name@, k as int) == configured_match(configured@, name@, 0),
        decreases configured@.len() - k,
    {
        let c = &configured[k];
        if bytes_eq(normalize_constant_name(c.name.as_slice()), n) {
            return Some(DeprecatedInfo { alternative: opt_copy(&c.alternative), deprecated_version: opt_copy(&c.deprecated_version) });
        }
        k = k + 1;
    }
    let table: Vec<(&'static str, &'static str, &'static str)> = vec![
        ("NIL", "nil", "2.4"),
        ("TRUE", "true", "2.4"),
        ("FALSE", "false", "2.4"),
        ("Net::HTTPServerException", "Net::HTTPClientException", "2.6"),
        ("Random::DEFAULT", "Random.new", "3.0"),
        ("Struct::Group", "Etc::Group", "3.0"),
        ("Struct::Passwd", "Etc::Passwd", "3.0"),
    ];
    let ghost all = builtin_deprecated();
    assert(table@.len() == all.len());
    assert(forall|j: int|
        0 <= j < table@.len() ==> (#[trigger] table@[j]).0.spec_bytes() == all[j].0 && table@[j].1.spec_bytes() == all[j].1
            && table@[j].2.spec_bytes() == all[j].2);
    let mut j: usize = 0;
    while j < table.len()
        invariant
            j <= table@.len(),
            all == builtin_deprecated(),
            table@.len() == all.len(),
            forall|i: int|
                0 <= i < table@.len() ==> (#[trigger] table@[i]).0.spec_bytes() == all[i].0 && table@[i].1.spec_bytes() == all[i].1
                    && table@[i].2.spec_bytes() == all[i].2,
            n@ == normalized(name@),
            configured_match(configured@, name@, 0) is None,
            builtin_match(name@, j as int) == builtin_match(name@, 0),
        decreases table@.len() - j,
    {
        let (bn, alt, ver) = table[j];
        if bytes_eq(bn.as_bytes(), n) {
            return Some(DeprecatedInfo { alternative: Some(message(alt)), deprecated_version: Some(message(ver)) });
        }
        j = j + 1;
    }
    None
}

/// The message for constant `name` described by `info`, given how its
/// version compares with the target Ruby version.
pub fn deprecated_message(name: &[u8], info: &DeprecatedInfo, check: VersionCheck) -> (r: Option<Vec<u8>>)
    ensures
        opt_view(r) == spec_deprecated_message(name@, opt_view(info.alternative), opt_view(info.deprecated_version), check),
{
    if info.deprecated_version.is_some() && check != VersionCheck::Applies {
        return None;
    }
    let mut m: Vec<u8>;
    match &info.alternative {
        Some(a) => {
            m = message("Use `");
            append(&mut m, a.as_slice());
            append(&mut m, "` instead of `".as_bytes());
            append(&mut m, name);
        },
        None => {
            m = message("Do not use `");
            append(&mut m, name);
        },
    }
    match &info.deprecated_version {
        Some(v) => {
            append(&mut m, "`, deprecated since Ruby ".as_bytes());
            append(&mut m, v.as_slice());
            append(&mut m, ".".as_bytes());
        },
        None => {
            append(&mut m, "`.".as_bytes());
        },
    }
    Some(m)
}

impl DeprecatedConstants {
    pub fn name(&self) -> (r: &'static str)
        ensures
            r@ == "Lint/DeprecatedConstants"@,
    {
        "Lint/DeprecatedConstants"
    }

    /// The text of a constant that the tables are looked up by, if it is
    /// UTF-8.
    pub fn constant_name(&self, source: &[u8], constant: &ConstantRef) -> (r: Option<Vec<u8>>)
        requires
            *constant matches ConstantRef::Path { start, end } ==> start <= end <= source@.len(),
        ensures
            match constant_text(source@, *constant) {
                Some((t, _)) => r matches Some(v) && v@ == t,
                None => r is None,
            },
    {
        let t: &[u8] = match constant {
            ConstantRef::Read { name, .. } => name.as_slice(),
            ConstantRef::Path { start, end } => &source[*start..*end],
        };
        if utf8_valid(t) {
            Some(vstd::slice::slice_to_vec(t))
        } else {
            None
        }
    }

    /// The offense of one constant, given the configured table and how the
    /// deprecation version of its entry compares with the target Ruby
    /// version.
    pub fn check_node(
        &self,
        source: &[u8],
        constant: &ConstantRef,
        configured: &Vec<ConfiguredConstant>,
        check: VersionCheck,
    ) -> (r: Option<Diagnostic>)
        requires
            source@.len() < usize::MAX,
            match *constant {
                ConstantRef::Read { start, .. } => start <= source@.len(),
                ConstantRef::Path { start, end } => start <= end <= source@.len(),
            },
        ensures
            match constant_text(source@, *constant) {
                Some((t, at)) => match spec_deprecated_info(configured@, t) {
                    Some((a, v)) => match spec_deprecated_message(t, a, v, check) {
                        Some(msg) => r matches Some(d) && d.location.line == spec_line_col(source@, at).0
                            && d.location.column == spec_line_col(source@, at).1 && d.message@ == msg && !d.corrected,
                        None => r is None,
                    },
                    None => r is None,
                },
                None => r is None,
            },
    {
        let t = match self.constant_name(source, constant) {
            Some(t) => t,
            None => {
                return None;
            },
        };
        let at = match constant {
            ConstantRef::Read { start, .. } => *start,
            ConstantRef::Path { start, .. } => *start,
        };
        let info = match deprecated_info(t.as_slice(), configured) {
            Some(i) => i,
            None => {
                return None;
            },
        };
        match deprecated_message(t.as_slice(), &info, check) {
            Some(m) => {
                let (line, column) = offset_to_line_col(source, at);
                Some(Diagnostic { location: Location { line, column }, message: m, corrected: false })
            },
            None => None,
        }
    }
}


proof fn lemma_builtin_match_from(name: Seq<u8>, k: int)
    requires
        0 <= k <= builtin_deprecated().len(),
    ensures
        (forall|m: int| k <= m < builtin_deprecated().len() ==> builtin_deprecated()[m].0 != normalized(name))
            ==> builtin_match(name, k) is None,
        forall|j: int| k <= j < builtin_deprecated().len() && builtin_deprecated()[j].0 == normalized(name)
            && (forall|m: int| k <= m < j ==> builtin_deprecated()[m].0 != normalized(name))
            ==> builtin_match(name, k) == Some(j),
    decreases builtin_deprecated().len() - k,
{
    if k < builtin_deprecated().len() {
        lemma_builtin_match_from(name, k + 1);
    }
}

/// Where no configured entry names it, each built-in deprecated constant,
/// written with or without a leading `::`, has its replacement and the
/// Ruby version that deprecated it: `NIL`, `TRUE`, `FALSE` (`nil`, `true`,
/// `false`, 2.4), `Net::HTTPServerException` (`Net::HTTPClientException`,
/// 2.6), `Random::DEFAULT` (`Random.new`, 3.0), `Struct::Group` and
/// `Struct::Passwd` (`Etc::Group`, `Etc::Passwd`, 3.0); no other constant
/// is deprecated.
pub proof fn law_builtin_deprecated_constants(cs: Seq<ConfiguredConstant>, name: Seq<u8>)
    requires
        configured_match(cs, name, 0) is None,
    ensures
        normalized(name) == "NIL".spec_bytes() ==> spec_deprecated_info(cs, name) == Some((Some("nil".spec_bytes()), Some("2.4".spec_bytes()))),
        normalized(name) == "TRUE".spec_bytes() ==> spec_deprecated_info(cs, name) == Some((Some("true".spec_bytes()), Some("2.4".spec_bytes()))),
        normalized(name) == "FALSE".spec_bytes() ==> spec_deprecated_info(cs, name) == Some((Some("false".spec_bytes()), Some("2.4".spec_bytes()))),
        normalized(name) == "Net::HTTPServerException".spec_bytes() ==> spec_deprecated_info(cs, name) == Some((Some("Net::HTTPClientException".spec_bytes()), Some("2.6".spec_bytes()))),
        normalized(name) == "Random::DEFAULT".spec_bytes() ==> spec_deprecated_info(cs, name) == Some((Some("Random.new".spec_bytes()), Some("3.0".spec_bytes()))),
        normalized(name) == "Struct::Group".spec_bytes() ==> spec_deprecated_info(cs, name) == Some((Some("Etc::Group".spec_bytes()), Some("3.0".spec_bytes()))),
        normalized(name) == "Struct::Passwd".spec_bytes() ==> spec_deprecated_info(cs, name) == Some((Some("Etc::Passwd".spec_bytes()), Some("3.0".spec_bytes()))),
        !(normalized(name) == "NIL".spec_bytes() || normalized(name) == "TRUE".spec_bytes() || normalized(name) == "FALSE".spec_bytes() || normalized(name) == "Net::HTTPServerException".spec_bytes() || normalized(name) == "Random::DEFAULT".spec_bytes() || normalized(name) == "Struct::Group".spec_bytes() || normalized(name) == "Struct::Passwd".spec_bytes()) ==> spec_deprecated_info(cs, name) is None,
{
    reveal_strlit("NIL");
    vstd::string::is_ascii_spec_bytes("NIL");
    reveal_strlit("TRUE");
    vstd::string::is_ascii_spec_bytes("TRUE");
    reveal_strlit("FALSE");
    vstd::string::is_ascii_spec_bytes("FALSE");
    reveal_strlit("Net::HTTPServerException");
    vstd::string::is_ascii_spec_bytes("Net::HTTPServerException");
    reveal_strlit("Random::DEFAULT");
    vstd::string::is_ascii_spec_bytes("Random::DEFAULT");
    reveal_strlit("Struct::Group");
    vstd::string::is_ascii_spec_bytes("Struct::Group");
    reveal_strlit("Struct::Passwd");
    vstd::string::is_ascii_spec_bytes("Struct::Passwd");
    lemma_builtin_match_from(name, 0);
    let t = builtin_deprecated();
    assert(t.len() == 7);
    assert(t[0].0 == "NIL".spec_bytes());
    assert(t[1].0 == "TRUE".spec_bytes());
    assert(t[2].0 == "FALSE".spec_bytes());
    assert(t[3].0 == "Net::HTTPServerException".spec_bytes());
    assert(t[4].0 == "Random::DEFAULT".spec_bytes());
    assert(t[5].0 == "Struct::Group".spec_bytes());
    assert(t[6].0 == "Struct::Passwd".spec_bytes());
}

} // verus!
