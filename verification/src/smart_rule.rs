//! Smart collection rules: a rule is a list of `field op value` items joined
//! by `and` or `or`. Every field, operator and value type is checked against
//! a whitelist, and a valid rule compiles to a list of typed conditions on
//! the wallpaper table (tag membership by tag id, media type, dimensions,
//! orientation, creation date, file size). Nothing of the value text reaches
//! a query other than as a typed parameter.
use vstd::prelude::*;

use crate::scheduler::contains_id;
use crate::text::{
    lemma_text_less_irreflexive, lemma_text_less_transitive, str_eq, text_before, text_less,
    text_less_is_a_strict_total_order,
};

verus! {

/// A JSON number as the parser classified it.
#[derive(Debug, Clone, Copy, PartialEq, Eq, Structural)]
pub enum JsonNumber {
    /// A non-negative integer.
    PosInt(u64),
    /// A negative integer.
    NegInt(i64),
    /// A number with a fraction or exponent; its value plays no part in rules.
    Float,
}

/// A JSON value.
#[derive(Debug)]
pub enum JsonValue {
    Null,
    Bool(bool),
    Number(JsonNumber),
    Str(String),
    Array(Vec<JsonValue>),
    Object(Vec<(String, JsonValue)>),
}

/// The integer a JSON value holds, when it holds one that fits in `i64`.
pub open spec fn json_as_i64(v: JsonValue) -> Option<i64> {
    match v {
        JsonValue::Number(JsonNumber::PosInt(u)) => if u <= i64::MAX {
            Some(u as i64)
        } else {
            None
        },
        JsonValue::Number(JsonNumber::NegInt(i)) => Some(i),
        _ => None,
    }
}

impl JsonValue {
    /// The integer this value holds, if it is an integer in the range of `i64`.
    pub fn as_i64(&self) -> (r: Option<i64>)
        ensures
            r == json_as_i64(*self),
    {
        match self {
            JsonValue::Number(JsonNumber::PosInt(u)) => if *u <= 0x7FFF_FFFF_FFFF_FFFFu64 {
                Some(*u as i64)
            } else {
                None
            },
            JsonValue::Number(JsonNumber::NegInt(i)) => Some(*i),
            _ => None,
        }
    }

    /// The string this value holds, if it is a string.
    pub fn as_str(&self) -> (r: Option<&String>)
        ensures
            (r is Some) == (*self is Str),
            r matches Some(s) ==> *self == JsonValue::Str(*s),
    {
        match self {
            JsonValue::Str(s) => Some(s),
            _ => None,
        }
    }

    /// The elements of this value, if it is an array.
    pub fn as_array(&self) -> (r: Option<&Vec<JsonValue>>)
        ensures
            (r is Some) == (*self is Array),
            r matches Some(a) ==> *self == JsonValue::Array(*a),
    {
        match self {
            JsonValue::Array(a) => Some(a),
            _ => None,
        }
    }
}

/// How the items of a rule combine.
#[derive(Debug, Clone, Copy, PartialEq, Eq, Structural)]
pub enum Combinator {
    /// Every item must hold.
    And,
    /// At least one item must hold.
    Or,
}

/// One item of a rule: a field, an operator and a value.
#[derive(Debug)]
pub struct RuleItem {
    pub field: String,
    pub op: String,
    pub value: JsonValue,
}

/// A smart collection rule.
#[derive(Debug)]
pub struct SmartRule {
    /// Schema version.
    pub version: u32,
    pub combinator: Combinator,
    pub rules: Vec<RuleItem>,
}

/// The schema version a rule without one has.
pub fn default_version() -> (r: u32)
    ensures
        r == 1,
{
    1
}

/// The whitelisted fields.
#[derive(Debug, Clone, Copy, PartialEq, Eq, Structural)]
pub enum Field {
    Tag,
    Type,
    Width,
    Height,
    Orientation,
    CreatedAt,
    FileSize,
}

/// The field a name denotes, if it is on the whitelist.
pub open spec fn field_spec(s: Seq<char>) -> Option<Field> {
    if s == "tag"@ {
        Some(Field::Tag)
    } else if s == "type"@ {
        Some(Field::Type)
    } else if s == "width"@ {
        Some(Field::Width)
    } else if s == "height"@ {
        Some(Field::Height)
    } else if s == "orientation"@ {
        Some(Field::Orientation)
    } else if s == "created_at"@ {
        Some(Field::CreatedAt)
    } else if s == "file_size"@ {
        Some(Field::FileSize)
    } else {
        None
    }
}

impl Field {
    /// The field named `s`, or `None` for a name off the whitelist.
    pub fn parse(s: &str) -> (r: Option<Field>)
        ensures
            r == field_spec(s@),
    {
        if str_eq(s, "tag") {
            Some(Field::Tag)
        } else if str_eq(s, "type") {
            Some(Field::Type)
        } else if str_eq(s, "width") {
            Some(Field::Width)
        } else if str_eq(s, "height") {
            Some(Field::Height)
        } else if str_eq(s, "orientation") {
            Some(Field::Orientation)
        } else if str_eq(s, "created_at") {
            Some(Field::CreatedAt)
        } else if str_eq(s, "file_size") {
            Some(Field::FileSize)
        } else {
            None
        }
    }
}

/// Why a rule item is refused.
#[derive(Debug, Clone, Copy, PartialEq, Eq, Structural)]
pub enum RuleIssue {
    /// The field is not on the whitelist.
    UnknownField,
    /// The operator is not allowed for the field.
    UnsupportedOp,
    /// The value must be an array.
    NotAnArray,
    /// The value (or an element of it) must be an integer.
    NotAnInteger,
    /// A tag id does not fit in `i32`.
    OutOfRange,
    /// A tag condition names no tag.
    EmptyTagList,
    /// The value must be a string.
    NotAString,
    /// The string is not one of the allowed values.
    NotAllowed,
    /// A `between` value must hold exactly two elements.
    WrongArity,
    /// A `between` range has its minimum above its maximum.
    ReversedRange,
    /// A date must be written `YYYY-MM-DD`.
    BadDate,
    /// `within_days` must be a positive number of days.
    NotPositive,
}

/// Why a rule is refused.
#[derive(Debug, Clone, Copy, PartialEq, Eq, Structural)]
pub enum RuleError {
    /// A rule without items would match everything.
    NoRules,
    /// Item number `index` (counted from 1) is refused.
    InvalidItem { index: usize, issue: RuleIssue },
}

/// The numeric columns a rule can bound.
#[derive(Debug, Clone, Copy, PartialEq, Eq, Structural)]
pub enum NumColumn {
    Width,
    Height,
    FileSize,
}

/// How a tag condition uses its tag ids.
#[derive(Debug, Clone, Copy, PartialEq, Eq, Structural)]
pub enum TagMatch {
    /// The wallpaper has at least one of the tags.
    Any,
    /// The wallpaper has every one of the tags.
    All,
    /// The wallpaper has none of the tags.
    Excluded,
}

/// Orientation derived from width and height.
#[derive(Debug, Clone, Copy, PartialEq, Eq, Structural)]
pub enum Orientation {
    /// Wider than high.
    Landscape,
    /// Higher than wide.
    Portrait,
    /// As wide as high.
    Square,
}

/// A compiled condition on the wallpaper table.
#[derive(Debug)]
pub enum RuleCondition {
    Tags { mode: TagMatch, ids: Vec<i32> },
    TypeEq(String),
    TypeNe(String),
    AtLeast(NumColumn, i64),
    AtMost(NumColumn, i64),
    /// Inclusive range, minimum first.
    Between(NumColumn, i64, i64),
    Shape(Orientation),
    /// Created within the given number of days before now.
    CreatedWithinDays(i64),
    /// Created before the given `YYYY-MM-DD` date.
    CreatedBefore(String),
    /// Created after the given `YYYY-MM-DD` date.
    CreatedAfter(String),
}

/// The mathematical content of a compiled condition.
pub enum ConditionModel {
    Tags(TagMatch, Seq<i32>),
    TypeEq(Seq<char>),
    TypeNe(Seq<char>),
    AtLeast(NumColumn, i64),
    AtMost(NumColumn, i64),
    Between(NumColumn, i64, i64),
    Shape(Orientation),
    CreatedWithinDays(i64),
    CreatedBefore(Seq<char>),
    CreatedAfter(Seq<char>),
}

impl View for RuleCondition {
    type V = ConditionModel;

    open spec fn view(&self) -> ConditionModel {
        match self {
            RuleCondition::Tags { mode, ids } => ConditionModel::Tags(*mode, ids@),
            RuleCondition::TypeEq(s) => ConditionModel::TypeEq(s@),
            RuleCondition::TypeNe(s) => ConditionModel::TypeNe(s@),
            RuleCondition::AtLeast(c, n) => ConditionModel::AtLeast(*c, *n),
            RuleCondition::AtMost(c, n) => ConditionModel::AtMost(*c, *n),
            RuleCondition::Between(c, a, b) => ConditionModel::Between(*c, *a, *b),
            RuleCondition::Shape(o) => ConditionModel::Shape(*o),
            RuleCondition::CreatedWithinDays(d) => ConditionModel::CreatedWithinDays(*d),
            RuleCondition::CreatedBefore(s) => ConditionModel::CreatedBefore(s@),
            RuleCondition::CreatedAfter(s) => ConditionModel::CreatedAfter(s@),
        }
    }
}

/// Whether `s` is a date `chrono::NaiveDate::parse_from_str(s, "%Y-%m-%d")` accepts.
pub uninterp spec fn parses_as_ymd_date(s: Seq<char>) -> bool;

/// Calls `chrono::NaiveDate::parse_from_str` with the format `%Y-%m-%d` and
/// reports whether it accepted `s`. The contract names that verdict
/// (`parses_as_ymd_date`); the calendar rules chrono applies are not stated.
#[verifier::external_body]
fn is_ymd_date(s: &str) -> (r: bool)
    ensures
        r == parses_as_ymd_date(s@),
{
    chrono::NaiveDate::parse_from_str(s, "%Y-%m-%d").is_ok()
}

/// Whether `v` lies in the range of `i32`.
pub open spec fn fits_i32(v: i64) -> bool {
    i32::MIN <= v <= i32::MAX
}

/// The elements of an array as tag ids: the first element that is not an
/// integer, or does not fit in `i32`, decides the error.
pub open spec fn i32_array_spec(s: Seq<JsonValue>) -> Result<Seq<i32>, RuleIssue>
    decreases s.len(),
{
    if s.len() == 0 {
        Ok(Seq::empty())
    } else {
        match i32_array_spec(s.drop_last()) {
            Err(e) => Err(e),
            Ok(p) => match json_as_i64(s.last()) {
                None => Err(RuleIssue::NotAnInteger),
                Some(n) => if fits_i32(n) {
                    Ok(p.push(n as i32))
                } else {
                    Err(RuleIssue::OutOfRange)
                },
            },
        }
    }
}

/// The value of an item as a list of tag ids.
pub open spec fn value_as_i32_array_spec(v: JsonValue) -> Result<Seq<i32>, RuleIssue> {
    match v {
        JsonValue::Array(a) => i32_array_spec(a@),
        _ => Err(RuleIssue::NotAnArray),
    }
}

/// The value of an item as an integer.
pub open spec fn value_as_i64_spec(v: JsonValue) -> Result<i64, RuleIssue> {
    match json_as_i64(v) {
        Some(n) => Ok(n),
        None => Err(RuleIssue::NotAnInteger),
    }
}

/// The value of an item as an inclusive `[min, max]` range.
pub open spec fn value_as_i64_pair_spec(v: JsonValue) -> Result<(i64, i64), RuleIssue> {
    match v {
        JsonValue::Array(a) => if a@.len() != 2 {
            Err(RuleIssue::WrongArity)
        } else {
            match (json_as_i64(a@[0]), json_as_i64(a@[1])) {
                (Some(lo), Some(hi)) => if lo > hi {
                    Err(RuleIssue::ReversedRange)
                } else {
                    Ok((lo, hi))
                },
                _ => Err(RuleIssue::NotAnInteger),
            }
        },
        _ => Err(RuleIssue::NotAnArray),
    }
}

/// The value of an item as one of the allowed strings.
pub open spec fn value_as_enum_spec(v: JsonValue, allowed: Seq<Seq<char>>) -> Result<
    Seq<char>,
    RuleIssue,
> {
    match v {
        JsonValue::Str(s) => if allowed.contains(s@) {
            Ok(s@)
        } else {
            Err(RuleIssue::NotAllowed)
        },
        _ => Err(RuleIssue::NotAString),
    }
}

/// The value of an item as a `YYYY-MM-DD` date.
pub open spec fn value_as_date_spec(v: JsonValue) -> Result<Seq<char>, RuleIssue> {
    match v {
        JsonValue::Str(s) => if parses_as_ymd_date(s@) {
            Ok(s@)
        } else {
            Err(RuleIssue::BadDate)
        },
        _ => Err(RuleIssue::NotAString),
    }
}

/// The media types a `type` item may name.
pub open spec fn media_types() -> Seq<Seq<char>> {
    seq!["image"@, "video"@, "gif"@]
}

/// The orientations an `orientation` item may name.
pub open spec fn orientations() -> Seq<Seq<char>> {
    seq!["landscape"@, "portrait"@, "square"@]
}

/// The orientation a whitelisted name denotes.
pub open spec fn orientation_of(s: Seq<char>) -> Orientation {
    if s == "landscape"@ {
        Orientation::Landscape
    } else if s == "portrait"@ {
        Orientation::Portrait
    } else {
        Orientation::Square
    }
}

/// A numeric bound on `col`: `gte`, `lte` or `between`.
pub open spec fn num_condition_spec(col: NumColumn, op: Seq<char>, v: JsonValue) -> Result<
    ConditionModel,
    RuleIssue,
> {
    if op == "gte"@ {
        match value_as_i64_spec(v) {
            Ok(n) => Ok(ConditionModel::AtLeast(col, n)),
            Err(e) => Err(e),
        }
    } else if op == "lte"@ {
        match value_as_i64_spec(v) {
            Ok(n) => Ok(ConditionModel::AtMost(col, n)),
            Err(e) => Err(e),
        }
    } else if op == "between"@ {
        match value_as_i64_pair_spec(v) {
            Ok(p) => Ok(ConditionModel::Between(col, p.0, p.1)),
            Err(e) => Err(e),
        }
    } else {
        Err(RuleIssue::UnsupportedOp)
    }
}

/// What one item compiles to, or why it is refused. The checks run in a fixed
/// order per field, and the first that fails decides the issue.
pub open spec fn item_spec(field: Seq<char>, op: Seq<char>, v: JsonValue) -> Result<
    ConditionModel,
    RuleIssue,
> {
    match field_spec(field) {
        None => Err(RuleIssue::UnknownField),
        Some(Field::Tag) => match value_as_i32_array_spec(v) {
            Err(e) => Err(e),
            Ok(ids) => if ids.len() == 0 {
                Err(RuleIssue::EmptyTagList)
            } else if op == "includes_any"@ {
                Ok(ConditionModel::Tags(TagMatch::Any, ids))
            } else if op == "excludes"@ {
                Ok(ConditionModel::Tags(TagMatch::Excluded, ids))
            } else if op == "includes_all"@ {
                Ok(ConditionModel::Tags(TagMatch::All, ids))
            } else {
                Err(RuleIssue::UnsupportedOp)
            },
        },
        Some(Field::Type) => match value_as_enum_spec(v, media_types()) {
            Err(e) => Err(e),
            Ok(t) => if op == "eq"@ {
                Ok(ConditionModel::TypeEq(t))
            } else if op == "neq"@ {
                Ok(ConditionModel::TypeNe(t))
            } else {
                Err(RuleIssue::UnsupportedOp)
            },
        },
        Some(Field::Width) => num_condition_spec(NumColumn::Width, op, v),
        Some(Field::Height) => num_condition_spec(NumColumn::Height, op, v),
        Some(Field::Orientation) => if op != "eq"@ {
            Err(RuleIssue::UnsupportedOp)
        } else {
            match value_as_enum_spec(v, orientations()) {
                Err(e) => Err(e),
                Ok(o) => Ok(ConditionModel::Shape(orientation_of(o))),
            }
        },
        Some(Field::CreatedAt) => if op == "within_days"@ {
            match value_as_i64_spec(v) {
                Err(e) => Err(e),
                Ok(d) => if d <= 0 {
                    Err(RuleIssue::NotPositive)
                } else {
                    Ok(ConditionModel::CreatedWithinDays(d))
                },
            }
        } else if op == "before"@ {
            match value_as_date_spec(v) {
                Err(e) => Err(e),
                Ok(s) => Ok(ConditionModel::CreatedBefore(s)),
            }
        } else if op == "after"@ {
            match value_as_date_spec(v) {
                Err(e) => Err(e),
                Ok(s) => Ok(ConditionModel::CreatedAfter(s)),
            }
        } else {
            Err(RuleIssue::UnsupportedOp)
        },
        Some(Field::FileSize) => if op == "gte"@ {
            match value_as_i64_spec(v) {
                Ok(n) => Ok(ConditionModel::AtLeast(NumColumn::FileSize, n)),
                Err(e) => Err(e),
            }
        } else if op == "lte"@ {
            match value_as_i64_spec(v) {
                Ok(n) => Ok(ConditionModel::AtMost(NumColumn::FileSize, n)),
                Err(e) => Err(e),
            }
        } else {
            Err(RuleIssue::UnsupportedOp)
        },
    }
}

/// What an item compiles to.
pub open spec fn rule_item_spec(item: RuleItem) -> Result<ConditionModel, RuleIssue> {
    item_spec(item.field@, item.op@, item.value)
}

/// Whether an executable result agrees with a specified one.
pub open spec fn agrees(r: Result<RuleCondition, RuleIssue>, s: Result<ConditionModel, RuleIssue>) -> bool {
    match (r, s) {
        (Ok(c), Ok(m)) => c@ == m,
        (Err(e), Err(f)) => e == f,
        _ => false,
    }
}

/// The value as tag ids.
fn value_as_i32_array(v: &JsonValue) -> (r: Result<Vec<i32>, RuleIssue>)
    ensures
        match (r, value_as_i32_array_spec(*v)) {
            (Ok(a), Ok(b)) => a@ == b,
            (Err(e), Err(f)) => e == f,
            _ => false,
        },
{
    let arr = match v.as_array() {
        Some(a) => a,
        None => return Err(RuleIssue::NotAnArray),
    };
    let ghost s = arr@;
    let mut out: Vec<i32> = Vec::new();
    let mut i: usize = 0;
    while i < arr.len()
        invariant
            s == arr@,
            *v == JsonValue::Array(*arr),
            i <= arr.len(),
            i32_array_spec(s.subrange(0, i as int)) == Ok::<Seq<i32>, RuleIssue>(out@),
        decreases arr.len() - i,
    {
        assert(s.subrange(0, i + 1).drop_last() =~= s.subrange(0, i as int));
        assert(s.subrange(0, i + 1).last() == s[i as int]);
        let n = match arr[i].as_i64() {
            Some(n) => n,
            None => {
                proof {
                    lemma_i32_array_prefix_err(s, i + 1, RuleIssue::NotAnInteger);
                }
                return Err(RuleIssue::NotAnInteger);
            },
        };
        if n < -0x8000_0000i64 || n > 0x7FFF_FFFFi64 {
            proof {
                lemma_i32_array_prefix_err(s, i + 1, RuleIssue::OutOfRange);
            }
            return Err(RuleIssue::OutOfRange);
        }
        out.push(n as i32);
        i = i + 1;
    }
    assert(s.subrange(0, arr.len() as int) =~= s);
    Ok(out)
}

/// An error of a prefix is the error of the whole array.
proof fn lemma_i32_array_prefix_err(s: Seq<JsonValue>, k: int, e: RuleIssue)
    requires
        0 <= k <= s.len(),
        i32_array_spec(s.subrange(0, k)) == Err::<Seq<i32>, RuleIssue>(e),
    ensures
        i32_array_spec(s) == Err::<Seq<i32>, RuleIssue>(e),
    decreases s.len() - k,
{
    if k < s.len() {
        assert(s.subrange(0, k + 1).drop_last() =~= s.subrange(0, k));
        lemma_i32_array_prefix_err(s, k + 1, e);
    } else {
        assert(s.subrange(0, k) =~= s);
    }
}

/// The value as an integer.
fn value_as_i64(v: &JsonValue) -> (r: Result<i64, RuleIssue>)
    ensures
        r == value_as_i64_spec(*v),
{
    match v.as_i64() {
        Some(n) => Ok(n),
        None => Err(RuleIssue::NotAnInteger),
    }
}

/// The value as an inclusive range.
fn value_as_i64_pair(v: &JsonValue) -> (r: Result<(i64, i64), RuleIssue>)
    ensures
        r == value_as_i64_pair_spec(*v),
{
    let arr = match v.as_array() {
        Some(a) => a,
        None => return Err(RuleIssue::NotAnArray),
    };
    if arr.len() != 2 {
        return Err(RuleIssue::WrongArity);
    }
    let lo = match arr[0].as_i64() {
        Some(n) => n,
        None => return Err(RuleIssue::NotAnInteger),
    };
    let hi = match arr[1].as_i64() {
        Some(n) => n,
        None => return Err(RuleIssue::NotAnInteger),
    };
    if lo > hi {
        return Err(RuleIssue::ReversedRange);
    }
    Ok((lo, hi))
}

/// The value as one of three allowed strings.
fn value_as_enum(v: &JsonValue, a: &str, b: &str, c: &str) -> (r: Result<String, RuleIssue>)
    ensures
        match (r, value_as_enum_spec(*v, seq![a@, b@, c@])) {
            (Ok(x), Ok(y)) => x@ == y,
            (Err(e), Err(f)) => e == f,
            _ => false,
        },
{
    let s = match v.as_str() {
        Some(s) => s,
        None => return Err(RuleIssue::NotAString),
    };
    let ghost allowed = seq![a@, b@, c@];
    assert(allowed[0] == a@ && allowed[1] == b@ && allowed[2] == c@);
    if str_eq(s.as_str(), a) || str_eq(s.as_str(), b) || str_eq(s.as_str(), c) {
        Ok(s.clone())
    } else {
        assert(!allowed.contains(s@)) by {
            if allowed.contains(s@) {
                let k = choose|k: int| 0 <= k < allowed.len() && allowed[k] == s@;
                assert(k == 0 || k == 1 || k == 2);
            }
        }
        Err(RuleIssue::NotAllowed)
    }
}

/// The value of an item as a date, given whether the date parser accepted
/// the string it holds (`accepted` is not looked at for other values).
pub fn date_value(v: &JsonValue, accepted: bool) -> (r: Result<String, RuleIssue>)
    ensures
        match *v {
            JsonValue::Str(s) => if accepted {
                r matches Ok(x) && x@ == s@
            } else {
                r == Err::<String, RuleIssue>(RuleIssue::BadDate)
            },
            _ => r == Err::<String, RuleIssue>(RuleIssue::NotAString),
        },
{
    match v.as_str() {
        Some(s) => if accepted {
            Ok(s.clone())
        } else {
            Err(RuleIssue::BadDate)
        },
        None => Err(RuleIssue::NotAString),
    }
}

/// The value as a date string.
fn value_as_date_str(v: &JsonValue) -> (r: Result<String, RuleIssue>)
    ensures
        match (r, value_as_date_spec(*v)) {
            (Ok(x), Ok(y)) => x@ == y,
            (Err(e), Err(f)) => e == f,
            _ => false,
        },
{
    let accepted = match v.as_str() {
        Some(s) => is_ymd_date(s.as_str()),
        None => false,
    };
    date_value(v, accepted)
}

fn num_condition(col: NumColumn, op: &str, v: &JsonValue) -> (r: Result<RuleCondition, RuleIssue>)
    ensures
        agrees(r, num_condition_spec(col, op@, *v)),
{
    if str_eq(op, "gte") {
        match value_as_i64(v) {
            Ok(n) => Ok(RuleCondition::AtLeast(col, n)),
            Err(e) => Err(e),
        }
    } else if str_eq(op, "lte") {
        match value_as_i64(v) {
            Ok(n) => Ok(RuleCondition::AtMost(col, n)),
            Err(e) => Err(e),
        }
    } else if str_eq(op, "between") {
        match value_as_i64_pair(v) {
            Ok(p) => Ok(RuleCondition::Between(col, p.0, p.1)),
            Err(e) => Err(e),
        }
    } else {
        Err(RuleIssue::UnsupportedOp)
    }
}

impl RuleItem {
    /// Compiles this item, checking its field, operator and value.
    pub fn build_condition(&self) -> (r: Result<RuleCondition, RuleIssue>)
        ensures
            agrees(r, rule_item_spec(*self)),
    {
        let op = self.op.as_str();
        let v = &self.value;
        match Field::parse(self.field.as_str()) {
            None => Err(RuleIssue::UnknownField),
            Some(Field::Tag) => {
                let ids = match value_as_i32_array(v) {
                    Ok(ids) => ids,
                    Err(e) => return Err(e),
                };
                if ids.len() == 0 {
                    Err(RuleIssue::EmptyTagList)
                } else if str_eq(op, "includes_any") {
                    Ok(RuleCondition::Tags { mode: TagMatch::Any, ids })
                } else if str_eq(op, "excludes") {
                    Ok(RuleCondition::Tags { mode: TagMatch::Excluded, ids })
                } else if str_eq(op, "includes_all") {
                    Ok(RuleCondition::Tags { mode: TagMatch::All, ids })
                } else {
                    Err(RuleIssue::UnsupportedOp)
                }
            },
            Some(Field::Type) => {
                let t = match value_as_enum(v, "image", "video", "gif") {
                    Ok(t) => t,
                    Err(e) => return Err(e),
                };
                if str_eq(op, "eq") {
                    Ok(RuleCondition::TypeEq(t))
                } else if str_eq(op, "neq") {
                    Ok(RuleCondition::TypeNe(t))
                } else {
                    Err(RuleIssue::UnsupportedOp)
                }
            },
            Some(Field::Width) => num_condition(NumColumn::Width, op, v),
            Some(Field::Height) => num_condition(NumColumn::Height, op, v),
            Some(Field::Orientation) => {
                if !str_eq(op, "eq") {
                    return Err(RuleIssue::UnsupportedOp);
                }
                let o = match value_as_enum(v, "landscape", "portrait", "square") {
                    Ok(o) => o,
                    Err(e) => return Err(e),
                };
                let shape = if str_eq(o.as_str(), "landscape") {
                    Orientation::Landscape
                } else if str_eq(o.as_str(), "portrait") {
                    Orientation::Portrait
                } else {
                    Orientation::Square
                };
                Ok(RuleCondition::Shape(shape))
            },
            Some(Field::CreatedAt) => {
                if str_eq(op, "within_days") {
                    match value_as_i64(v) {
                        Err(e) => Err(e),
                        Ok(d) => if d <= 0 {
                            Err(RuleIssue::NotPositive)
                        } else {
                            Ok(RuleCondition::CreatedWithinDays(d))
                        },
                    }
                } else if str_eq(op, "before") {
                    match value_as_date_str(v) {
                        Err(e) => Err(e),
                        Ok(s) => Ok(RuleCondition::CreatedBefore(s)),
                    }
                } else if str_eq(op, "after") {
                    match value_as_date_str(v) {
                        Err(e) => Err(e),
                        Ok(s) => Ok(RuleCondition::CreatedAfter(s)),
                    }
                } else {
                    Err(RuleIssue::UnsupportedOp)
                }
            },
            Some(Field::FileSize) => {
                if str_eq(op, "gte") {
                    match value_as_i64(v) {
                        Ok(n) => Ok(RuleCondition::AtLeast(NumColumn::FileSize, n)),
                        Err(e) => Err(e),
                    }
                } else if str_eq(op, "lte") {
                    match value_as_i64(v) {
                        Ok(n) => Ok(RuleCondition::AtMost(NumColumn::FileSize, n)),
                        Err(e) => Err(e),
                    }
                } else {
                    Err(RuleIssue::UnsupportedOp)
                }
            },
        }
    }

    /// Checks this item against the whitelist.
    pub fn validate(&self) -> (r: Result<(), RuleIssue>)
        ensures
            match rule_item_spec(*self) {
                Ok(_) => r is Ok,
                Err(e) => r == Err::<(), RuleIssue>(e),
            },
    {
        match self.build_condition() {
            Ok(_) => Ok(()),
            Err(e) => Err(e),
        }
    }
}

/// The first refused item of `rules`, with its position counted from 1.
pub open spec fn first_issue(rules: Seq<RuleItem>) -> Option<(int, RuleIssue)>
    decreases rules.len(),
{
    if rules.len() == 0 {
        None
    } else {
        match first_issue(rules.drop_last()) {
            Some(x) => Some(x),
            None => match rule_item_spec(rules.last()) {
                Err(e) => Some((rules.len() as int, e)),
                Ok(_) => None,
            },
        }
    }
}

/// Whether rule `r` is accepted, and otherwise why not.
pub open spec fn validate_spec(rules: Seq<RuleItem>) -> Result<(), RuleError> {
    if rules.len() == 0 {
        Err(RuleError::NoRules)
    } else {
        match first_issue(rules) {
            Some((i, e)) => Err(RuleError::InvalidItem { index: i as usize, issue: e }),
            None => Ok(()),
        }
    }
}

/// The compiled form of a rule: its combinator and one condition per item.
#[derive(Debug)]
pub struct CompiledRule {
    pub combinator: Combinator,
    pub conditions: Vec<RuleCondition>,
}

/// The conditions the items of `rules` compile to, in order, when all are
/// accepted.
pub open spec fn compiled_spec(rules: Seq<RuleItem>) -> Seq<ConditionModel>
    decreases rules.len(),
{
    if rules.len() == 0 {
        Seq::empty()
    } else {
        match rule_item_spec(rules.last()) {
            Ok(m) => compiled_spec(rules.drop_last()).push(m),
            Err(_) => compiled_spec(rules.drop_last()),
        }
    }
}

proof fn lemma_first_issue_prefix(rules: Seq<RuleItem>, k: int)
    requires
        0 <= k <= rules.len(),
        first_issue(rules.subrange(0, k)) is Some,
    ensures
        first_issue(rules) == first_issue(rules.subrange(0, k)),
    decreases rules.len() - k,
{
    if k < rules.len() {
        assert(rules.subrange(0, k + 1).drop_last() =~= rules.subrange(0, k));
        lemma_first_issue_prefix(rules, k + 1);
    } else {
        assert(rules.subrange(0, k) =~= rules);
    }
}

impl SmartRule {
    /// Checks every item against the whitelist; refuses a rule without items.
    pub fn validate(&self) -> (r: Result<(), RuleError>)
        ensures
            r == validate_spec(self.rules@),
    {
        if self.rules.len() == 0 {
            return Err(RuleError::NoRules);
        }
        let ghost s = self.rules@;
        let mut i: usize = 0;
        while i < self.rules.len()
            invariant
                s == self.rules@,
                i <= s.len(),
                first_issue(s.subrange(0, i as int)) is None,
            decreases s.len() - i,
        {
            assert(s.subrange(0, i + 1).drop_last() =~= s.subrange(0, i as int));
            assert(s.subrange(0, i + 1).last() == s[i as int]);
            match self.rules[i].validate() {
                Ok(()) => {},
                Err(e) => {
                    proof {
                        lemma_first_issue_prefix(s, i + 1);
                    }
                    return Err(RuleError::InvalidItem { index: i + 1, issue: e });
                },
            }
            i = i + 1;
        }
        assert(s.subrange(0, s.len() as int) =~= s);
        Ok(())
    }

    /// Compiles every item. An empty rule compiles to no condition; the first
    /// refused item decides the error.
    pub fn build_condition(&self) -> (r: Result<CompiledRule, RuleIssue>)
        ensures
            match first_issue(self.rules@) {
                Some((_, e)) => r == Err::<CompiledRule, RuleIssue>(e),
                None => r matches Ok(c) && c.combinator == self.combinator && c.conditions@.len()
                    == self.rules@.len() && c.conditions@.map_values(|x: RuleCondition| x@)
                    == compiled_spec(self.rules@),
            },
    {
        let ghost s = self.rules@;
        let mut out: Vec<RuleCondition> = Vec::new();
        let mut i: usize = 0;
        while i < self.rules.len()
            invariant
                s == self.rules@,
                i <= s.len(),
                first_issue(s.subrange(0, i as int)) is None,
                out@.len() == i,
                out@.map_values(|x: RuleCondition| x@) == compiled_spec(s.subrange(0, i as int)),
            decreases s.len() - i,
        {
            assert(s.subrange(0, i + 1).drop_last() =~= s.subrange(0, i as int));
            assert(s.subrange(0, i + 1).last() == s[i as int]);
            match self.rules[i].build_condition() {
                Ok(c) => {
                    let ghost before = out@;
                    out.push(c);
                    assert(out@.map_values(|x: RuleCondition| x@) =~= before.map_values(
                        |x: RuleCondition| x@,
                    ).push(c@));
                },
                Err(e) => {
                    proof {
                        lemma_first_issue_prefix(s, i + 1);
                    }
                    return Err(e);
                },
            }
            i = i + 1;
        }
        assert(s.subrange(0, s.len() as int) =~= s);
        Ok(CompiledRule { combinator: self.combinator, conditions: out })
    }
}

/// A rule is accepted exactly when it has items and every item compiles.
pub proof fn validate_iff_compiles(rules: Seq<RuleItem>)
    ensures
        (validate_spec(rules) is Ok) == (rules.len() > 0 && first_issue(rules) is None),
{
}

proof fn lemma_compiled_ranges(rules: Seq<RuleItem>, j: int)
    requires
        first_issue(rules) is None,
        0 <= j < compiled_spec(rules).len(),
    ensures
        compiled_spec(rules)[j] matches ConditionModel::Between(_, lo, hi) ==> lo <= hi,
        compiled_spec(rules)[j] matches ConditionModel::Tags(_, ids) ==> ids.len() > 0,
        compiled_spec(rules)[j] matches ConditionModel::CreatedWithinDays(d) ==> d > 0,
    decreases rules.len(),
{
    if rules.len() > 0 {
        let p = rules.drop_last();
        assert(first_issue(p) is None);
        if j < compiled_spec(p).len() {
            lemma_compiled_ranges(p, j);
        }
    }
}

/// Every compiled `between` range has its minimum at most its maximum, every
/// tag condition names at least one tag and every `within_days` is positive.
pub proof fn compiled_conditions_are_well_formed(rules: Seq<RuleItem>, j: int)
    requires
        validate_spec(rules) is Ok,
        0 <= j < compiled_spec(rules).len(),
    ensures
        compiled_spec(rules)[j] matches ConditionModel::Between(_, lo, hi) ==> lo <= hi,
        compiled_spec(rules)[j] matches ConditionModel::Tags(_, ids) ==> ids.len() > 0,
        compiled_spec(rules)[j] matches ConditionModel::CreatedWithinDays(d) ==> d > 0,
{
    lemma_compiled_ranges(rules, j);
}


// ---------------------------------------------------------------------------
// what a rule selects

/// What the conditions of a rule look at of one wallpaper: its media type,
/// its size in pixels (unknown for a video), its file size, when it was
/// added (`%Y-%m-%d %H:%M:%S`) and the ids of its tags.
pub struct WallpaperFacts {
    pub media_type: String,
    pub width: Option<i64>,
    pub height: Option<i64>,
    pub file_size: i64,
    pub created_at: String,
    pub tags: Vec<i32>,
}

/// The value of a numeric column, `None` where the column is empty.
pub open spec fn column_value(col: NumColumn, f: WallpaperFacts) -> Option<i64> {
    match col {
        NumColumn::Width => f.width,
        NumColumn::Height => f.height,
        NumColumn::FileSize => Some(f.file_size),
    }
}

/// Whether the tag ids `tags` of a wallpaper meet a tag condition on `ids`:
/// at least one of them, all of them, or none of them.
pub open spec fn tags_match(mode: TagMatch, ids: Seq<i32>, tags: Seq<i32>) -> bool {
    match mode {
        TagMatch::Any => exists|i: int| 0 <= i < ids.len() && tags.contains(#[trigger] ids[i]),
        TagMatch::All => forall|i: int| 0 <= i < ids.len() ==> tags.contains(#[trigger] ids[i]),
        TagMatch::Excluded => forall|i: int| 0 <= i < ids.len() ==> !tags.contains(#[trigger] ids[i]),
    }
}

/// Whether condition `c` selects the wallpaper with facts `f`. Comparisons
/// with an empty column select nothing; times compare as text, as the store
/// compares them; `threshold` is the time `within_days` days before now.
pub open spec fn selects(c: ConditionModel, f: WallpaperFacts, threshold: Seq<char>) -> bool {
    match c {
        ConditionModel::Tags(mode, ids) => tags_match(mode, ids, f.tags@),
        ConditionModel::TypeEq(t) => f.media_type@ == t,
        ConditionModel::TypeNe(t) => f.media_type@ != t,
        ConditionModel::AtLeast(col, n) => match column_value(col, f) {
            Some(v) => v >= n,
            None => false,
        },
        ConditionModel::AtMost(col, n) => match column_value(col, f) {
            Some(v) => v <= n,
            None => false,
        },
        ConditionModel::Between(col, lo, hi) => match column_value(col, f) {
            Some(v) => lo <= v <= hi,
            None => false,
        },
        ConditionModel::Shape(o) => match (f.width, f.height) {
            (Some(w), Some(h)) => match o {
                Orientation::Landscape => w > h,
                Orientation::Portrait => w < h,
                Orientation::Square => w == h,
            },
            _ => false,
        },
        ConditionModel::CreatedWithinDays(_) => !text_less(f.created_at@, threshold),
        ConditionModel::CreatedBefore(d) => text_less(f.created_at@, d),
        ConditionModel::CreatedAfter(d) => text_less(d, f.created_at@),
    }
}

/// What each condition means for one wallpaper, stated without the rule
/// machinery:
/// - a wallpaper of known size is exactly one of landscape (wider than
///   high), portrait (higher than wide) and square; one of unknown size is
///   none of them;
/// - a type condition selects the wallpapers of that type, its negation the
///   others;
/// - a lower bound, an upper bound and a range select exactly the known
///   values on the right side of the bounds, and a range selects what both
///   of its bounds select;
/// - a tag condition on `ids` selects a wallpaper carrying some of `ids`
///   (any), all of `ids` (all), or none of `ids` (excluded, the complement of
///   any);
/// - before and after a date select the wallpapers added earlier and later
///   than it, and no wallpaper is both; within the last days selects those
///   added at or after the threshold time.
pub proof fn conditions_mean_what_they_say(
    f: WallpaperFacts,
    t: Seq<char>,
    col: NumColumn,
    lo: i64,
    hi: i64,
    ids: Seq<i32>,
    media: Seq<char>,
    d: Seq<char>,
)
    ensures
        selects(ConditionModel::Shape(Orientation::Landscape), f, t) <==> (f.width is Some
            && f.height is Some && f.width->0 > f.height->0),
        selects(ConditionModel::Shape(Orientation::Portrait), f, t) <==> (f.width is Some
            && f.height is Some && f.width->0 < f.height->0),
        selects(ConditionModel::Shape(Orientation::Square), f, t) <==> (f.width is Some
            && f.height is Some && f.width->0 == f.height->0),
        f.width is Some && f.height is Some ==> (selects(
            ConditionModel::Shape(Orientation::Landscape),
            f,
            t,
        ) || selects(ConditionModel::Shape(Orientation::Portrait), f, t) || selects(
            ConditionModel::Shape(Orientation::Square),
            f,
            t,
        )),
        !(selects(ConditionModel::Shape(Orientation::Landscape), f, t) && selects(
            ConditionModel::Shape(Orientation::Portrait),
            f,
            t,
        )),
        selects(ConditionModel::TypeEq(media), f, t) <==> f.media_type@ == media,
        selects(ConditionModel::TypeNe(media), f, t) <==> !selects(ConditionModel::TypeEq(media), f, t),
        selects(ConditionModel::AtLeast(NumColumn::Width, lo), f, t) <==> (f.width is Some
            && f.width->0 >= lo),
        selects(ConditionModel::AtMost(NumColumn::Height, hi), f, t) <==> (f.height is Some
            && f.height->0 <= hi),
        selects(ConditionModel::AtLeast(NumColumn::FileSize, lo), f, t) <==> f.file_size >= lo,
        selects(ConditionModel::AtMost(NumColumn::FileSize, hi), f, t) <==> f.file_size <= hi,
        selects(ConditionModel::Between(col, lo, hi), f, t) <==> (selects(
            ConditionModel::AtLeast(col, lo),
            f,
            t,
        ) && selects(ConditionModel::AtMost(col, hi), f, t)),
        selects(ConditionModel::Tags(TagMatch::Any, ids), f, t) <==> (exists|x: i32|
            #[trigger] ids.contains(x) && f.tags@.contains(x)),
        selects(ConditionModel::Tags(TagMatch::All, ids), f, t) <==> (forall|x: i32|
            #[trigger] ids.contains(x) ==> f.tags@.contains(x)),
        selects(ConditionModel::Tags(TagMatch::Excluded, ids), f, t) <==> !selects(
            ConditionModel::Tags(TagMatch::Any, ids),
            f,
            t,
        ),
        !(selects(ConditionModel::CreatedBefore(d), f, t) && selects(
            ConditionModel::CreatedAfter(d),
            f,
            t,
        )),
        forall|n: i64|
            #[trigger] selects(ConditionModel::CreatedWithinDays(n), f, t) <==> (f.created_at@ == t
                || text_less(t, f.created_at@)),
{
    text_less_is_a_strict_total_order(f.created_at@, d, f.created_at@);
    text_less_is_a_strict_total_order(f.created_at@, t, f.created_at@);
    text_less_is_a_strict_total_order(t, f.created_at@, t);
    if text_less(f.created_at@, t) && text_less(t, f.created_at@) {
        lemma_text_less_transitive(f.created_at@, t, f.created_at@, 0);
    }
    let tags = f.tags@;
    if exists|x: i32| #[trigger] ids.contains(x) && tags.contains(x) {
        let x = choose|x: i32| #[trigger] ids.contains(x) && tags.contains(x);
        let i = choose|i: int| 0 <= i < ids.len() && ids[i] == x;
        assert(tags.contains(ids[i]));
    }
    if exists|i: int| 0 <= i < ids.len() && tags.contains(#[trigger] ids[i]) {
        let i = choose|i: int| 0 <= i < ids.len() && tags.contains(#[trigger] ids[i]);
        assert(ids.contains(ids[i]));
    }
    if forall|i: int| 0 <= i < ids.len() ==> tags.contains(#[trigger] ids[i]) {
        assert forall|x: i32| #[trigger] ids.contains(x) implies tags.contains(x) by {
            let i = choose|i: int| 0 <= i < ids.len() && ids[i] == x;
        }
    }
    if forall|x: i32| #[trigger] ids.contains(x) ==> tags.contains(x) {
        assert forall|i: int| 0 <= i < ids.len() implies tags.contains(#[trigger] ids[i]) by {
            assert(ids.contains(ids[i]));
        }
    }
    if selects(ConditionModel::CreatedBefore(d), f, t) && selects(ConditionModel::CreatedAfter(d), f, t) {
        lemma_text_less_transitive(f.created_at@, d, f.created_at@, 0);
        lemma_text_less_irreflexive(f.created_at@, 0);
    }
}

/// Whether one of `ids` is among `tags`.
fn any_tag_in(ids: &Vec<i32>, tags: &Vec<i32>) -> (r: bool)
    ensures
        r == exists|i: int| 0 <= i < ids@.len() && tags@.contains(#[trigger] ids@[i]),
{
    let mut i: usize = 0;
    while i < ids.len()
        invariant
            i <= ids@.len(),
            forall|k: int| 0 <= k < i ==> !tags@.contains(#[trigger] ids@[k]),
        decreases ids.len() - i,
    {
        if contains_id(tags, ids[i]) {
            return true;
        }
        i = i + 1;
    }
    false
}

/// Whether all of `ids` are among `tags`.
fn all_tags_in(ids: &Vec<i32>, tags: &Vec<i32>) -> (r: bool)
    ensures
        r == forall|i: int| 0 <= i < ids@.len() ==> tags@.contains(#[trigger] ids@[i]),
{
    let mut i: usize = 0;
    while i < ids.len()
        invariant
            i <= ids@.len(),
            forall|k: int| 0 <= k < i ==> tags@.contains(#[trigger] ids@[k]),
        decreases ids.len() - i,
    {
        if !contains_id(tags, ids[i]) {
            return false;
        }
        i = i + 1;
    }
    true
}

fn column_of(col: NumColumn, f: &WallpaperFacts) -> (r: Option<i64>)
    ensures
        r == column_value(col, *f),
{
    match col {
        NumColumn::Width => f.width,
        NumColumn::Height => f.height,
        NumColumn::FileSize => Some(f.file_size),
    }
}

impl RuleCondition {
    /// Whether this condition selects the wallpaper with facts `f`, where
    /// `threshold` is the time `within_days` days before now.
    pub fn selects(&self, f: &WallpaperFacts, threshold: &str) -> (r: bool)
        ensures
            r == selects(self@, *f, threshold@),
    {
        match self {
            RuleCondition::Tags { mode, ids } => match mode {
                TagMatch::Any => any_tag_in(ids, &f.tags),
                TagMatch::All => all_tags_in(ids, &f.tags),
                TagMatch::Excluded => !any_tag_in(ids, &f.tags),
            },
            RuleCondition::TypeEq(t) => str_eq(f.media_type.as_str(), t.as_str()),
            RuleCondition::TypeNe(t) => !str_eq(f.media_type.as_str(), t.as_str()),
            RuleCondition::AtLeast(col, n) => match column_of(*col, f) {
                Some(v) => v >= *n,
                None => false,
            },
            RuleCondition::AtMost(col, n) => match column_of(*col, f) {
                Some(v) => v <= *n,
                None => false,
            },
            RuleCondition::Between(col, lo, hi) => match column_of(*col, f) {
                Some(v) => *lo <= v && v <= *hi,
                None => false,
            },
            RuleCondition::Shape(o) => match (f.width, f.height) {
                (Some(w), Some(h)) => match o {
                    Orientation::Landscape => w > h,
                    Orientation::Portrait => w < h,
                    Orientation::Square => w == h,
                },
                _ => false,
            },
            RuleCondition::CreatedWithinDays(_) => !text_before(f.created_at.as_str(), threshold),
            RuleCondition::CreatedBefore(d) => text_before(f.created_at.as_str(), d.as_str()),
            RuleCondition::CreatedAfter(d) => text_before(d.as_str(), f.created_at.as_str()),
        }
    }
}

impl CompiledRule {
    /// Whether the rule selects the wallpaper with facts `f`: every condition
    /// holds when the items combine with `and`, at least one with `or`.
    pub fn selects(&self, f: &WallpaperFacts, threshold: &str) -> (r: bool)
        ensures
            r == match self.combinator {
                Combinator::And => forall|j: int|
                    0 <= j < self.conditions@.len() ==> selects(
                        #[trigger] self.conditions@[j]@,
                        *f,
                        threshold@,
                    ),
                Combinator::Or => exists|j: int|
                    0 <= j < self.conditions@.len() && selects(
                        #[trigger] self.conditions@[j]@,
                        *f,
                        threshold@,
                    ),
            },
    {
        let is_and = match self.combinator {
            Combinator::And => true,
            Combinator::Or => false,
        };
        let mut i: usize = 0;
        while i < self.conditions.len()
            invariant
                i <= self.conditions@.len(),
                is_and == (self.combinator == Combinator::And),
                is_and ==> forall|k: int|
                    0 <= k < i ==> selects(#[trigger] self.conditions@[k]@, *f, threshold@),
                !is_and ==> forall|k: int|
                    0 <= k < i ==> !selects(#[trigger] self.conditions@[k]@, *f, threshold@),
            decreases self.conditions.len() - i,
        {
            let hit = self.conditions[i].selects(f, threshold);
            if is_and && !hit {
                return false;
            }
            if !is_and && hit {
                return true;
            }
            i = i + 1;
        }
        is_and
    }
}

} // verus!
