//! The Python text that is written for a command: the checks on its
//! arguments, its documentation, and the method itself.

use crate::rename::{method_name, spec_method_name};
use crate::text::{chars_of, join, spec_join, spec_words, words};
use crate::types::{
    AllowedRepeats, CephEnum, CephEnumView, CephType, CephTypeView, Command, CommandView, Module,
};
use vstd::prelude::*;
use vstd::string::StrSliceExecFns;

verus! {

/// Appends the text `s` to `out`.
pub fn push_str(out: &mut String, s: &str)
    ensures
        final(out)@ == old(out)@ + s@,
{
    let ghost start = out@;
    for c in it: s.chars()
        invariant
            it.seq() == s@,
            start == old(out)@,
            out@ == start + it.seq().take(it.index() as int),
    {
        proof {
            assert(it.seq().take(it.index() + 1) =~= it.seq().take(it.index() as int).push(c));
            assert((start + it.seq().take(it.index() as int)).push(c) =~= start + it.seq().take(
                it.index() + 1,
            ));
        }
        out.push(c);
    }
    proof {
        assert(s@.take(s@.len() as int) =~= s@);
    }
}

/// The character that writes a digit.
pub open spec fn digit_char(d: nat) -> char {
    if d == 0 {
        '0'
    } else if d == 1 {
        '1'
    } else if d == 2 {
        '2'
    } else if d == 3 {
        '3'
    } else if d == 4 {
        '4'
    } else if d == 5 {
        '5'
    } else if d == 6 {
        '6'
    } else if d == 7 {
        '7'
    } else if d == 8 {
        '8'
    } else {
        '9'
    }
}

/// A number as it is written in decimal, without leading zeros.
pub open spec fn spec_number(n: nat) -> Seq<char>
    decreases n,
{
    if n < 10 {
        seq![digit_char(n)]
    } else {
        spec_number(n / 10).push(digit_char(n % 10))
    }
}

/// The character that writes the digit `d`.
fn digit(d: u32) -> (r: char)
    requires
        d < 10,
    ensures
        r == digit_char(d as nat),
{
    if d == 0 {
        '0'
    } else if d == 1 {
        '1'
    } else if d == 2 {
        '2'
    } else if d == 3 {
        '3'
    } else if d == 4 {
        '4'
    } else if d == 5 {
        '5'
    } else if d == 6 {
        '6'
    } else if d == 7 {
        '7'
    } else if d == 8 {
        '8'
    } else {
        '9'
    }
}

/// Writes a number in decimal.
pub fn number(n: u32) -> (r: String)
    ensures
        r@ == spec_number(n as nat),
{
    let mut digits: Vec<char> = Vec::new();
    let mut left: u32 = n;
    digits.push(digit(left % 10));
    left = left / 10;
    while left > 0
        invariant
            digits@.len() > 0,
            spec_number(n as nat) == if left == 0 {
                digits@.reverse()
            } else {
                spec_number(left as nat) + digits@.reverse()
            },
        decreases left,
    {
        let ghost before = digits@;
        digits.push(digit(left % 10));
        proof {
            assert(digits@.reverse() =~= seq![digit_char((left % 10) as nat)] + before.reverse());
            if left >= 10 {
                assert(spec_number(left as nat) + before.reverse() =~= spec_number(
                    (left / 10) as nat,
                ) + digits@.reverse());
            } else {
                assert(spec_number(left as nat) + before.reverse() =~= digits@.reverse());
            }
        }
        left = left / 10;
    }
    let mut out = String::new();
    let mut i: usize = digits.len();
    while i > 0
        invariant
            0 <= i <= digits@.len(),
            out@ == digits@.reverse().take(digits@.len() - i),
        decreases i,
    {
        i -= 1;
        proof {
            let k = digits@.len() - i;
            assert(digits@.reverse().take(k) =~= digits@.reverse().take(k - 1).push(digits@[i as int]));
        }
        out.push(digits[i]);
    }
    proof {
        assert(digits@.reverse().take(digits@.len() as int) =~= digits@.reverse());
    }
    out
}

/// Each word between double quotes.
pub open spec fn spec_quoted(words: Seq<Seq<char>>) -> Seq<Seq<char>> {
    words.map_values(|w: Seq<char>| "\""@ + w + "\""@)
}

/// Puts each word between double quotes.
pub fn quoted(words: &Vec<String>) -> (r: Vec<String>)
    ensures
        r.deep_view() == spec_quoted(words.deep_view()),
{
    let mut out: Vec<String> = Vec::new();
    let mut i: usize = 0;
    while i < words.len()
        invariant
            0 <= i <= words@.len(),
            out@.len() == i,
            forall|j: int| 0 <= j < i ==> (#[trigger] out@[j])@ == "\""@ + words@[j]@ + "\""@,
        decreases words@.len() - i,
    {
        let mut q = "\"".to_owned();
        push_str(&mut q, words[i].as_str());
        push_str(&mut q, "\"");
        out.push(q);
        i += 1;
    }
    proof {
        assert(out.deep_view() =~= spec_quoted(words.deep_view()));
    }
    out
}

/// A number that may be missing, as it is written.
pub open spec fn spec_number_text(n: Option<u32>) -> Option<Seq<char>> {
    match n {
        Some(n) => Some(spec_number(n as nat)),
        None => None,
    }
}

/// Writes a number that may be missing.
pub fn number_text(n: &Option<u32>) -> (r: Option<String>)
    ensures
        r.deep_view() == spec_number_text(*n),
{
    match n {
        Some(n) => Some(number(*n)),
        None => None,
    }
}

/// `base`, followed by ` min=` and ` max=` with the bounds that are set.
pub open spec fn spec_with_bounds(
    base: Seq<char>,
    min: Option<Seq<char>>,
    max: Option<Seq<char>>,
) -> Seq<char> {
    let with_min = match min {
        Some(m) => base + " min="@ + m,
        None => base,
    };
    match max {
        Some(m) => with_min + " max="@ + m,
        None => with_min,
    }
}

/// Appends the bounds that are set to `base`.
fn with_bounds(base: &str, min: &Option<String>, max: &Option<String>) -> (r: String)
    ensures
        r@ == spec_with_bounds(base@, min.deep_view(), max.deep_view()),
{
    let mut out = base.to_owned();
    if let Some(m) = min {
        push_str(&mut out, " min=");
        push_str(&mut out, m.as_str());
    }
    if let Some(m) = max {
        push_str(&mut out, " max=");
        push_str(&mut out, m.as_str());
    }
    out
}

/// `base`, followed by the words that say how often an argument may be
/// given.
pub open spec fn spec_with_repeats(base: Seq<char>, repeats: AllowedRepeats) -> Seq<char> {
    base + " allowed repeats="@ + repeats.word()
}

impl CephEnumView {
    /// The kind as the documentation of a method names it.
    pub open spec fn describe(self) -> Seq<char> {
        match self {
            CephEnumView::CephInt { min, max } => spec_with_bounds(
                "int"@,
                spec_number_text(min),
                spec_number_text(max),
            ),
            CephEnumView::CephFloat { min, max } => spec_with_bounds("float"@, min, max),
            CephEnumView::CephString { goodchars, allowed_repeats } => spec_with_repeats(
                match goodchars {
                    Some(charset) => "six.string_types"@ + " valid_characters=["@ + charset + "]"@,
                    None => "six.string_types"@,
                },
                allowed_repeats,
            ),
            CephEnumView::CephSocketpath => "socket"@,
            CephEnumView::CephIPAddr => "v4 or v6 addr with optional port"@,
            CephEnumView::CephEntityAddr => "CephIPAddr + optional '/nonce'"@,
            CephEnumView::CephPoolname { allowed_repeats } => match allowed_repeats {
                Some(repeats) => spec_with_repeats("six.string_types"@, repeats),
                None => "six.string_types"@,
            },
            CephEnumView::CephObjectname => "six.string_types"@,
            CephEnumView::CephPgid => "six.string_types"@,
            CephEnumView::CephName => "six.string_types"@,
            CephEnumView::CephOsdName => "six.string_types"@,
            CephEnumView::CephChoices { choices, allowed_repeats } => spec_with_repeats(
                "list"@ + " valid_range=["@ + spec_join(spec_quoted(choices), ',') + "]"@,
                allowed_repeats,
            ),
            CephEnumView::CephFilepath => "file path"@,
            CephEnumView::CephFragment => "six.string_types"@,
            CephEnumView::CephUUID => "uuid.UUID"@,
            CephEnumView::CephPrefix => ""@,
            CephEnumView::Unknown => "unknown"@,
        }
    }
}

/// The two lines that refuse an argument of the wrong Python type.
pub open spec fn spec_type_check(
    indent: Seq<char>,
    name: Seq<char>,
    python_type: Seq<char>,
    what: Seq<char>,
) -> Seq<char> {
    indent + "if not isinstance("@ + name + ", "@ + python_type + "):"@ + "\n"@ + indent
        + "    raise TypeError(\""@ + name + " is not a "@ + what + "\")"@
}

/// The two lines that refuse an argument on the wrong side of a bound.
/// `relation` is the comparison that must not hold.
pub open spec fn spec_bound_check(
    indent: Seq<char>,
    name: Seq<char>,
    calling_function: Seq<char>,
    relation: Seq<char>,
    bound: Seq<char>,
) -> Seq<char> {
    "\n"@ + indent + "if "@ + name + relation + bound + ":"@ + "\n"@ + indent
        + "    raise CephError(cmd=\""@ + calling_function + "\", msg=str("@ + name
        + ")+\" is less than min of "@ + bound + "\")"@
}

/// `base`, followed by the checks for the bounds that are set.
pub open spec fn spec_with_bound_checks(
    base: Seq<char>,
    indent: Seq<char>,
    name: Seq<char>,
    calling_function: Seq<char>,
    min: Option<Seq<char>>,
    max: Option<Seq<char>>,
) -> Seq<char> {
    let with_min = match min {
        Some(m) => base + spec_bound_check(indent, name, calling_function, " < "@, m),
        None => base,
    };
    match max {
        Some(m) => with_min + spec_bound_check(indent, name, calling_function, " > "@, m),
        None => with_min,
    }
}

/// The two lines that refuse an argument with characters outside the allowed
/// set.
pub open spec fn spec_charset_check(
    indent: Seq<char>,
    name: Seq<char>,
    calling_function: Seq<char>,
    good: Seq<char>,
) -> Seq<char> {
    "\n"@ + indent + "if not re.match(\""@ + good + "\", "@ + name + "):"@ + "\n"@ + indent
        + "    raise CephError(cmd=\""@ + calling_function + "\", msg="@ + name + "+\" not in "@
        + good + "\")"@
}

impl CephEnumView {
    /// The Python statements that check an argument of this kind. `indent`
    /// stands before each line, `name` is the argument, and
    /// `calling_function` is the method that the errors name.
    pub open spec fn validation(
        self,
        name: Seq<char>,
        indent: Seq<char>,
        calling_function: Seq<char>,
    ) -> Seq<char> {
        match self {
            CephEnumView::CephInt { min, max } => spec_with_bound_checks(
                spec_type_check(indent, name, "six.integer_types"@, "int"@),
                indent,
                name,
                calling_function,
                spec_number_text(min),
                spec_number_text(max),
            ),
            CephEnumView::CephFloat { min, max } => spec_with_bound_checks(
                spec_type_check(indent, name, "float"@, "float"@),
                indent,
                name,
                calling_function,
                min,
                max,
            ),
            CephEnumView::CephString { goodchars, allowed_repeats } => match goodchars {
                Some(good) => spec_type_check(indent, name, "six.string_types"@, "String"@)
                    + spec_charset_check(indent, name, calling_function, good),
                None => spec_type_check(indent, name, "six.string_types"@, "String"@),
            },
            CephEnumView::CephSocketpath => "\n"@ + indent + "if not stat.S_ISSOCK(os.stat("@ + name
                + ").st_mode):"@ + "\n"@ + indent + "    raise TypeError(\""@ + name
                + " is not a socket\")"@,
            CephEnumView::CephIPAddr => Seq::empty(),
            CephEnumView::CephEntityAddr => Seq::empty(),
            CephEnumView::CephPoolname { allowed_repeats } => spec_type_check(
                indent,
                name,
                "six.string_types"@,
                "String"@,
            ),
            CephEnumView::CephObjectname => spec_type_check(
                indent,
                name,
                "six.string_types"@,
                "String"@,
            ),
            CephEnumView::CephPgid => spec_type_check(indent, name, "six.string_types"@, "String"@),
            CephEnumView::CephName => spec_type_check(indent, name, "six.string_types"@, "String"@),
            CephEnumView::CephOsdName => spec_type_check(
                indent,
                name,
                "six.string_types"@,
                "String"@,
            ),
            CephEnumView::CephChoices { choices, allowed_repeats } => indent + "validator(value="@
                + name + ","@ + " valid_type=list,"@ + " valid_range=["@ + spec_join(
                spec_quoted(choices),
                ',',
            ) + "]"@ + ")"@ + ", str("@ + name + ") + \" is not a list\""@,
            CephEnumView::CephFilepath => indent + "assert os.path.exists("@ + name + "), "@
                + ", str("@ + name + ") + \" does not exist on the filesystem\""@,
            CephEnumView::CephFragment => Seq::empty(),
            CephEnumView::CephUUID => spec_type_check(indent, name, "pyuuid.UUID"@, "uuid"@),
            CephEnumView::CephPrefix => Seq::empty(),
            CephEnumView::Unknown => Seq::empty(),
        }
    }
}

/// Writes the lines that refuse an argument of the wrong Python type.
fn type_check(indent: &str, name: &str, python_type: &str, what: &str) -> (r: String)
    ensures
        r@ == spec_type_check(indent@, name@, python_type@, what@),
{
    let mut out = indent.to_owned();
    push_str(&mut out, "if not isinstance(");
    push_str(&mut out, name);
    push_str(&mut out, ", ");
    push_str(&mut out, python_type);
    push_str(&mut out, "):");
    push_str(&mut out, "\n");
    push_str(&mut out, indent);
    push_str(&mut out, "    raise TypeError(\"");
    push_str(&mut out, name);
    push_str(&mut out, " is not a ");
    push_str(&mut out, what);
    push_str(&mut out, "\")");
    out
}

/// Writes the lines that refuse an argument on the wrong side of a bound.
fn bound_check(indent: &str, name: &str, calling_function: &str, relation: &str, bound: &str) -> (r:
    String)
    ensures
        r@ == spec_bound_check(indent@, name@, calling_function@, relation@, bound@),
{
    let mut out = "\n".to_owned();
    push_str(&mut out, indent);
    push_str(&mut out, "if ");
    push_str(&mut out, name);
    push_str(&mut out, relation);
    push_str(&mut out, bound);
    push_str(&mut out, ":");
    push_str(&mut out, "\n");
    push_str(&mut out, indent);
    push_str(&mut out, "    raise CephError(cmd=\"");
    push_str(&mut out, calling_function);
    push_str(&mut out, "\", msg=str(");
    push_str(&mut out, name);
    push_str(&mut out, ")+\" is less than min of ");
    push_str(&mut out, bound);
    push_str(&mut out, "\")");
    out
}

/// Appends the checks for the bounds that are set to `base`.
fn with_bound_checks(
    base: String,
    indent: &str,
    name: &str,
    calling_function: &str,
    min: &Option<String>,
    max: &Option<String>,
) -> (r: String)
    ensures
        r@ == spec_with_bound_checks(
            base@,
            indent@,
            name@,
            calling_function@,
            min.deep_view(),
            max.deep_view(),
        ),
{
    let mut out = base;
    if let Some(m) = min {
        let check = bound_check(indent, name, calling_function, " < ", m.as_str());
        push_str(&mut out, check.as_str());
    }
    if let Some(m) = max {
        let check = bound_check(indent, name, calling_function, " > ", m.as_str());
        push_str(&mut out, check.as_str());
    }
    out
}

/// Writes the lines that refuse an argument with characters outside the
/// allowed set.
fn charset_check(indent: &str, name: &str, calling_function: &str, good: &str) -> (r: String)
    ensures
        r@ == spec_charset_check(indent@, name@, calling_function@, good@),
{
    let mut out = "\n".to_owned();
    push_str(&mut out, indent);
    push_str(&mut out, "if not re.match(\"");
    push_str(&mut out, good);
    push_str(&mut out, "\", ");
    push_str(&mut out, name);
    push_str(&mut out, "):");
    push_str(&mut out, "\n");
    push_str(&mut out, indent);
    push_str(&mut out, "    raise CephError(cmd=\"");
    push_str(&mut out, calling_function);
    push_str(&mut out, "\", msg=");
    push_str(&mut out, name);
    push_str(&mut out, "+\" not in ");
    push_str(&mut out, good);
    push_str(&mut out, "\")");
    out
}

/// Appends the words that say how often an argument may be given.
fn with_repeats(base: String, repeats: AllowedRepeats) -> (r: String)
    ensures
        r@ == spec_with_repeats(base@, repeats),
{
    let mut out = base;
    push_str(&mut out, " allowed repeats=");
    push_str(&mut out, repeats.to_string().as_str());
    out
}

impl CephEnum {
    /// The Python statements that check an argument of this kind. `indent`
    /// stands before each line, `param_name` is the argument, and
    /// `calling_function` is the method that the errors name. A bound of a
    /// decimal range is written as it was read.
    pub fn validate_string(
        &self,
        param_name: &String,
        indent: String,
        calling_function: &String,
    ) -> (r: String)
        ensures
            r@ == self.deep_view().validation(param_name@, indent@, calling_function@),
    {
        let name = param_name.as_str();
        let indent = indent.as_str();
        let calling = calling_function.as_str();
        match self {
            CephEnum::CephInt { min, max } => with_bound_checks(
                type_check(indent, name, "six.integer_types", "int"),
                indent,
                name,
                calling,
                &number_text(min),
                &number_text(max),
            ),
            CephEnum::CephFloat { min, max } => with_bound_checks(
                type_check(indent, name, "float", "float"),
                indent,
                name,
                calling,
                min,
                max,
            ),
            CephEnum::CephString { goodchars, allowed_repeats } => {
                let mut out = type_check(indent, name, "six.string_types", "String");
                if let Some(good) = goodchars {
                    let check = charset_check(indent, name, calling, good.as_str());
                    push_str(&mut out, check.as_str());
                }
                out
            },
            CephEnum::CephSocketpath => {
                let mut out = "\n".to_owned();
                push_str(&mut out, indent);
                push_str(&mut out, "if not stat.S_ISSOCK(os.stat(");
                push_str(&mut out, name);
                push_str(&mut out, ").st_mode):");
                push_str(&mut out, "\n");
                push_str(&mut out, indent);
                push_str(&mut out, "    raise TypeError(\"");
                push_str(&mut out, name);
                push_str(&mut out, " is not a socket\")");
                out
            },
            CephEnum::CephIPAddr => String::new(),
            CephEnum::CephEntityAddr => String::new(),
            CephEnum::CephPoolname { allowed_repeats } => type_check(
                indent,
                name,
                "six.string_types",
                "String",
            ),
            CephEnum::CephObjectname => type_check(indent, name, "six.string_types", "String"),
            CephEnum::CephPgid => type_check(indent, name, "six.string_types", "String"),
            CephEnum::CephName => type_check(indent, name, "six.string_types", "String"),
            CephEnum::CephOsdName => type_check(indent, name, "six.string_types", "String"),
            CephEnum::CephChoices { choices, allowed_repeats } => {
                let mut out = indent.to_owned();
                push_str(&mut out, "validator(value=");
                push_str(&mut out, name);
                push_str(&mut out, ",");
                push_str(&mut out, " valid_type=list,");
                push_str(&mut out, " valid_range=[");
                push_str(&mut out, join(&quoted(choices), ',').as_str());
                push_str(&mut out, "]");
                push_str(&mut out, ")");
                push_str(&mut out, ", str(");
                push_str(&mut out, name);
                push_str(&mut out, ") + \" is not a list\"");
                out
            },
            CephEnum::CephFilepath => {
                let mut out = indent.to_owned();
                push_str(&mut out, "assert os.path.exists(");
                push_str(&mut out, name);
                push_str(&mut out, "), ");
                push_str(&mut out, ", str(");
                push_str(&mut out, name);
                push_str(&mut out, ") + \" does not exist on the filesystem\"");
                out
            },
            CephEnum::CephFragment => String::new(),
            CephEnum::CephUUID => type_check(indent, name, "pyuuid.UUID", "uuid"),
            CephEnum::CephPrefix => String::new(),
            CephEnum::Unknown => String::new(),
        }
    }

    /// The kind as the documentation of a method names it. A bound of a
    /// decimal range is written as it was read.
    pub fn to_string(&self) -> (r: String)
        ensures
            r@ == self.deep_view().describe(),
    {
        match self {
            CephEnum::CephInt { min, max } => with_bounds(
                "int",
                &number_text(min),
                &number_text(max),
            ),
            CephEnum::CephFloat { min, max } => with_bounds("float", min, max),
            CephEnum::CephString { goodchars, allowed_repeats } => {
                let mut out = "six.string_types".to_owned();
                if let Some(charset) = goodchars {
                    push_str(&mut out, " valid_characters=[");
                    push_str(&mut out, charset.as_str());
                    push_str(&mut out, "]");
                }
                with_repeats(out, *allowed_repeats)
            },
            CephEnum::CephSocketpath => "socket".to_owned(),
            CephEnum::CephIPAddr => "v4 or v6 addr with optional port".to_owned(),
            CephEnum::CephEntityAddr => "CephIPAddr + optional '/nonce'".to_owned(),
            CephEnum::CephPoolname { allowed_repeats } => match allowed_repeats {
                Some(repeats) => with_repeats("six.string_types".to_owned(), *repeats),
                None => "six.string_types".to_owned(),
            },
            CephEnum::CephObjectname => "six.string_types".to_owned(),
            CephEnum::CephPgid => "six.string_types".to_owned(),
            CephEnum::CephName => "six.string_types".to_owned(),
            CephEnum::CephOsdName => "six.string_types".to_owned(),
            CephEnum::CephChoices { choices, allowed_repeats } => {
                let mut out = "list".to_owned();
                push_str(&mut out, " valid_range=[");
                push_str(&mut out, join(&quoted(choices), ',').as_str());
                push_str(&mut out, "]");
                with_repeats(out, *allowed_repeats)
            },
            CephEnum::CephFilepath => "file path".to_owned(),
            CephEnum::CephFragment => "six.string_types".to_owned(),
            CephEnum::CephUUID => "uuid.UUID".to_owned(),
            CephEnum::CephPrefix => "".to_owned(),
            CephEnum::Unknown => "unknown".to_owned(),
        }
    }
}

/// The names of the parameters that must be given, in order.
pub open spec fn mandatory_names(entries: Seq<(Seq<char>, CephTypeView)>) -> Seq<Seq<char>>
    decreases entries.len(),
{
    if entries.len() == 0 {
        Seq::empty()
    } else if entries.last().1.req {
        mandatory_names(entries.drop_last()).push(entries.last().0)
    } else {
        mandatory_names(entries.drop_last())
    }
}

/// The parameters that may be left out, in order, each as `name=None`.
pub open spec fn optional_defaults(entries: Seq<(Seq<char>, CephTypeView)>) -> Seq<Seq<char>>
    decreases entries.len(),
{
    if entries.len() == 0 {
        Seq::empty()
    } else if entries.last().1.req {
        optional_defaults(entries.drop_last())
    } else {
        optional_defaults(entries.drop_last()).push(entries.last().0 + "=None"@)
    }
}

/// What follows `self` in the parameter list of a method: the parameters
/// that must be given, and then those that may be left out, each after a
/// comma.
pub open spec fn spec_param_list(entries: Seq<(Seq<char>, CephTypeView)>) -> Seq<char> {
    let mandatory = if mandatory_names(entries).len() > 0 {
        ","@ + spec_join(mandatory_names(entries), ',')
    } else {
        Seq::empty()
    };
    if optional_defaults(entries).len() > 0 {
        mandatory + ","@ + spec_join(optional_defaults(entries), ',')
    } else {
        mandatory
    }
}

/// Writes what follows `self` in the parameter list of a method.
pub fn generate_param_list(params: &Vec<(String, CephType)>) -> (r: String)
    ensures
        r@ == spec_param_list(params.deep_view()),
{
    let mut optional_params: Vec<String> = Vec::new();
    let mut mandatory_params: Vec<String> = Vec::new();
    let mut i: usize = 0;
    while i < params.len()
        invariant
            0 <= i <= params@.len(),
            mandatory_params.deep_view() == mandatory_names(params.deep_view().take(i as int)),
            optional_params.deep_view() == optional_defaults(params.deep_view().take(i as int)),
        decreases params@.len() - i,
    {
        proof {
            assert(params.deep_view().take(i + 1).drop_last() =~= params.deep_view().take(i as int));
        }
        let ghost mandatory = mandatory_params.deep_view();
        let ghost optional = optional_params.deep_view();
        if params[i].1.req {
            let key = params[i].0.as_str().to_owned();
            mandatory_params.push(key);
            proof {
                assert(mandatory_params.deep_view() =~= mandatory.push(params@[i as int].0@));
            }
        } else {
            let mut key = params[i].0.as_str().to_owned();
            push_str(&mut key, "=None");
            optional_params.push(key);
            proof {
                assert(optional_params.deep_view() =~= optional.push(
                    params@[i as int].0@ + "=None"@,
                ));
            }
        }
        i += 1;
    }
    proof {
        assert(params.deep_view().take(params@.len() as int) =~= params.deep_view());
    }
    let mut output = String::new();
    if mandatory_params.len() > 0 {
        push_str(&mut output, ",");
        push_str(&mut output, join(&mandatory_params, ',').as_str());
        proof {
            assert(output@ =~= ","@ + spec_join(mandatory_names(params.deep_view()), ','));
        }
    }
    if optional_params.len() > 0 {
        push_str(&mut output, ",");
        push_str(&mut output, join(&optional_params, ',').as_str());
    }
    output
}

/// The words of a text laid out in lines: the words are counted by their
/// characters, and the word that brings the count of its line to fifty or
/// more goes to a new line, behind a line break and seven spaces, and starts
/// the count again. The result is the pieces and the count of the open line.
pub open spec fn spec_wrap_pieces(parts: Seq<Seq<char>>) -> (Seq<Seq<char>>, nat)
    decreases parts.len(),
{
    if parts.len() == 0 {
        (Seq::empty(), 0)
    } else {
        let (output, count) = spec_wrap_pieces(parts.drop_last());
        if count + parts.last().len() >= 50 {
            (output.push("\n       "@).push(parts.last()), 0)
        } else {
            (output.push(parts.last()), count + parts.last().len())
        }
    }
}

/// A text wrapped into lines: its words and the line breaks between them,
/// joined by single spaces.
pub open spec fn spec_wrap(s: Seq<char>) -> Seq<char> {
    spec_join(spec_wrap_pieces(spec_words(s)).0, ' ')
}

/// Wraps a text into lines by splitting it at white space and putting the
/// words together again.
pub fn wrap_string(s: &String) -> (r: String)
    ensures
        r@ == spec_wrap(s@),
{
    let mut count: usize = 0;
    let mut output: Vec<String> = Vec::new();
    let parts = words(&chars_of(s.as_str()));
    let mut i: usize = 0;
    while i < parts.len()
        invariant
            0 <= i <= parts@.len(),
            count < 50,
            (output.deep_view(), count as nat) == spec_wrap_pieces(
                parts.deep_view().take(i as int),
            ),
        decreases parts@.len() - i,
    {
        proof {
            assert(parts.deep_view().take(i + 1).drop_last() =~= parts.deep_view().take(i as int));
        }
        let ghost before = output.deep_view();
        let part = parts[i].as_str();
        let len = part.unicode_len();
        if len >= 50 - count {
            output.push("\n       ".to_owned());
            output.push(part.to_owned());
            count = 0;
            proof {
                assert(output.deep_view() =~= before.push("\n       "@).push(part@));
            }
        } else {
            output.push(part.to_owned());
            count = count + len;
            proof {
                assert(output.deep_view() =~= before.push(part@));
            }
        }
        i += 1;
    }
    proof {
        assert(parts.deep_view().take(parts@.len() as int) =~= parts.deep_view());
    }
    join(&output, ' ')
}

/// The name of the method that is written for a command: the method name of
/// its prefix, with `_2` behind it for a duplicate.
pub open spec fn spec_full_method_name(prefix: Seq<char>, duplicate: bool) -> Seq<char> {
    if duplicate {
        spec_method_name(prefix) + "_2"@
    } else {
        spec_method_name(prefix)
    }
}

/// The lines that document the parameters, one for each.
pub open spec fn spec_param_docs(entries: Seq<(Seq<char>, CephTypeView)>) -> Seq<Seq<char>> {
    entries.map_values(
        |e: (Seq<char>, CephTypeView)| "        :param "@ + e.0 + ": "@ + e.1.variant.describe(),
    )
}

/// The checks on the parameters that must be given, each followed by a line
/// break.
pub open spec fn spec_required_checks(
    entries: Seq<(Seq<char>, CephTypeView)>,
    method: Seq<char>,
) -> Seq<char>
    decreases entries.len(),
{
    if entries.len() == 0 {
        Seq::empty()
    } else if entries.last().1.req {
        spec_required_checks(entries.drop_last(), method) + entries.last().1.variant.validation(
            entries.last().0,
            "        "@,
            method,
        ) + "\n"@
    } else {
        spec_required_checks(entries.drop_last(), method)
    }
}

/// The items of the request for the parameters that must be given.
pub open spec fn spec_required_items(entries: Seq<(Seq<char>, CephTypeView)>) -> Seq<char>
    decreases entries.len(),
{
    if entries.len() == 0 {
        Seq::empty()
    } else if entries.last().1.req {
        spec_required_items(entries.drop_last()) + ", '"@ + entries.last().0 + "':"@
            + entries.last().0
    } else {
        spec_required_items(entries.drop_last())
    }
}

/// The statements that, for each parameter that may be left out, check it
/// and put it into the request where it was given.
pub open spec fn spec_optional_blocks(
    entries: Seq<(Seq<char>, CephTypeView)>,
    method: Seq<char>,
) -> Seq<char>
    decreases entries.len(),
{
    if entries.len() == 0 {
        Seq::empty()
    } else if entries.last().1.req {
        spec_optional_blocks(entries.drop_last(), method)
    } else {
        spec_optional_blocks(entries.drop_last(), method) + "\n"@ + "\n        if "@
            + entries.last().0 + " is not None:"@ + "\n"@ + entries.last().1.variant.validation(
            entries.last().0,
            "            "@,
            method,
        ) + "\n            cmd['"@ + entries.last().0 + "']="@ + entries.last().0
    }
}

/// The Python method that is written for a command with the prefix `prefix`
/// and the parameters `entries`, in their order.
pub open spec fn spec_method(
    prefix: Seq<char>,
    duplicate: bool,
    entries: Seq<(Seq<char>, CephTypeView)>,
    helpstring: Seq<char>,
) -> Seq<char> {
    let method = spec_full_method_name(prefix, duplicate);
    let head = "    def "@ + method + "(self"@ + spec_param_list(entries) + "):\n"@
        + "        \"\"\"\n"@ + "        "@ + spec_wrap(helpstring) + "\n\n"@ + spec_join(
        spec_param_docs(entries),
        '\n',
    ) + "\n        :return: (string outbuf, string outs)"@
        + "\n        :raise CephError: Raises CephError on command execution errors"@
        + "\n        :raise rados.Error: Raises on rados errors"@ + "\n        \"\"\"\n\n"@
        + spec_required_checks(entries, method);
    let request = if entries.len() == 0 {
        head + "        cmd={'prefix': '"@ + prefix + "'}"@
    } else {
        head + "        cmd={'prefix': '"@ + prefix + "'"@
    };
    let required = request + spec_required_items(entries);
    let closed = if entries.len() > 0 {
        required + "\n        }"@
    } else {
        required
    };
    closed + spec_optional_blocks(entries, method)
        + "\n        return run_ceph_command(self.rados_config_file, cmd, inbuf='')"@ + "\n"@
}

/// Writes the lines that document the parameters.
fn param_docs(params: &Vec<(String, CephType)>) -> (r: Vec<String>)
    ensures
        r.deep_view() == spec_param_docs(params.deep_view()),
{
    let mut out: Vec<String> = Vec::new();
    let mut i: usize = 0;
    while i < params.len()
        invariant
            0 <= i <= params@.len(),
            out@.len() == i,
            forall|j: int|
                0 <= j < i ==> (#[trigger] out@[j])@ == "        :param "@ + params@[j].0@ + ": "@
                    + params@[j].1.variant.deep_view().describe(),
        decreases params@.len() - i,
    {
        let mut line = "        :param ".to_owned();
        push_str(&mut line, params[i].0.as_str());
        push_str(&mut line, ": ");
        push_str(&mut line, params[i].1.variant.to_string().as_str());
        out.push(line);
        i += 1;
    }
    proof {
        assert(out.deep_view() =~= spec_param_docs(params.deep_view()));
    }
    out
}

/// Writes the checks on the parameters that must be given.
fn required_checks(params: &Vec<(String, CephType)>, method: &String) -> (r: String)
    ensures
        r@ == spec_required_checks(params.deep_view(), method@),
{
    let mut out = String::new();
    let mut i: usize = 0;
    while i < params.len()
        invariant
            0 <= i <= params@.len(),
            out@ == spec_required_checks(params.deep_view().take(i as int), method@),
        decreases params@.len() - i,
    {
        proof {
            assert(params.deep_view().take(i + 1).drop_last() =~= params.deep_view().take(i as int));
        }
        if params[i].1.req {
            let check = params[i].1.variant.validate_string(
                &params[i].0,
                "        ".to_owned(),
                method,
            );
            push_str(&mut out, check.as_str());
            push_str(&mut out, "\n");
        }
        i += 1;
    }
    proof {
        assert(params.deep_view().take(params@.len() as int) =~= params.deep_view());
    }
    out
}

/// Writes the items of the request for the parameters that must be given.
fn required_items(params: &Vec<(String, CephType)>) -> (r: String)
    ensures
        r@ == spec_required_items(params.deep_view()),
{
    let mut out = String::new();
    let mut i: usize = 0;
    while i < params.len()
        invariant
            0 <= i <= params@.len(),
            out@ == spec_required_items(params.deep_view().take(i as int)),
        decreases params@.len() - i,
    {
        proof {
            assert(params.deep_view().take(i + 1).drop_last() =~= params.deep_view().take(i as int));
        }
        if params[i].1.req {
            push_str(&mut out, ", '");
            push_str(&mut out, params[i].0.as_str());
            push_str(&mut out, "':");
            push_str(&mut out, params[i].0.as_str());
        }
        i += 1;
    }
    proof {
        assert(params.deep_view().take(params@.len() as int) =~= params.deep_view());
    }
    out
}

/// Writes the statements for the parameters that may be left out.
fn optional_blocks(params: &Vec<(String, CephType)>, method: &String) -> (r: String)
    ensures
        r@ == spec_optional_blocks(params.deep_view(), method@),
{
    let mut out = String::new();
    let mut i: usize = 0;
    while i < params.len()
        invariant
            0 <= i <= params@.len(),
            out@ == spec_optional_blocks(params.deep_view().take(i as int), method@),
        decreases params@.len() - i,
    {
        proof {
            assert(params.deep_view().take(i + 1).drop_last() =~= params.deep_view().take(i as int));
        }
        if !params[i].1.req {
            let check = params[i].1.variant.validate_string(
                &params[i].0,
                "            ".to_owned(),
                method,
            );
            push_str(&mut out, "\n");
            push_str(&mut out, "\n        if ");
            push_str(&mut out, params[i].0.as_str());
            push_str(&mut out, " is not None:");
            push_str(&mut out, "\n");
            push_str(&mut out, check.as_str());
            push_str(&mut out, "\n            cmd['");
            push_str(&mut out, params[i].0.as_str());
            push_str(&mut out, "']=");
            push_str(&mut out, params[i].0.as_str());
        }
        i += 1;
    }
    proof {
        assert(params.deep_view().take(params@.len() as int) =~= params.deep_view());
    }
    out
}

impl CommandView {
    /// The name of the method that is written for the command.
    pub open spec fn method_name(self) -> Seq<char> {
        spec_full_method_name(self.signature.prefix, self.signature.duplicate)
    }

    /// The Python method that is written for the command.
    pub open spec fn method_text(self) -> Seq<char> {
        spec_method(
            self.signature.prefix,
            self.signature.duplicate,
            self.signature.parameters,
            self.helpstring,
        )
    }
}

impl Command {
    /// The name of the method that is written for the command.
    pub fn method_name(&self) -> (r: String)
        ensures
            r@ == self.deep_view().method_name(),
    {
        let mut name = method_name(self.signature.prefix.as_str());
        if self.signature.duplicate {
            push_str(&mut name, "_2");
        }
        name
    }

    /// The Python method that runs the command: its header, its
    /// documentation, the checks on its arguments, the request, and the call
    /// that sends it.
    pub fn to_string(&self) -> (r: String)
        ensures
            r@ == self.deep_view().method_text(),
    {
        let prefix_method_name = self.method_name();
        let params = &self.signature.parameters;
        let num_of_params = params.len();
        let mut output = "    def ".to_owned();
        push_str(&mut output, prefix_method_name.as_str());
        push_str(&mut output, "(self");
        push_str(&mut output, generate_param_list(params).as_str());
        push_str(&mut output, "):\n");
        push_str(&mut output, "        \"\"\"\n");
        push_str(&mut output, "        ");
        push_str(&mut output, wrap_string(&self.helpstring).as_str());
        push_str(&mut output, "\n\n");
        push_str(&mut output, join(&param_docs(params), '\n').as_str());
        push_str(&mut output, "\n        :return: (string outbuf, string outs)");
        push_str(
            &mut output,
            "\n        :raise CephError: Raises CephError on command execution errors",
        );
        push_str(&mut output, "\n        :raise rados.Error: Raises on rados errors");
        push_str(&mut output, "\n        \"\"\"\n\n");
        push_str(&mut output, required_checks(params, &prefix_method_name).as_str());
        push_str(&mut output, "        cmd={'prefix': '");
        push_str(&mut output, self.signature.prefix.as_str());
        if num_of_params == 0 {
            push_str(&mut output, "'}");
        } else {
            push_str(&mut output, "'");
        }
        push_str(&mut output, required_items(params).as_str());
        if num_of_params > 0 {
            push_str(&mut output, "\n        }");
        }
        push_str(&mut output, optional_blocks(params, &prefix_method_name).as_str());
        push_str(
            &mut output,
            "\n        return run_ceph_command(self.rados_config_file, cmd, inbuf='')",
        );
        push_str(&mut output, "\n");
        output
    }
}

/// The lines that every written module begins with: what it imports.
pub open spec fn spec_imports() -> Seq<char> {
    "from ceph_api.validator import validator\nimport json\nimport os\nimport os.path\nimport rados\nimport re\nimport six\nimport stat\nimport uuid as pyuuid\n\n"@
}

/// The class of the errors that the written methods raise.
pub open spec fn spec_exception_class() -> Seq<char> {
    "class CephError(Exception):\n    \"\"\"Exception raised for errors with running a Ceph command\n\n        :param cmd: cmd in which the error occurred\n        :param msg: explanation of the error\n    \"\"\"\n    def __init__(self, cmd, msg):\n        self.cmd = cmd\n        self.msg = msg\n\n"@
}

/// The function that sends a request, which every written method calls.
pub open spec fn spec_run_command() -> Seq<char> {
    "def run_ceph_command(conffile, cmd, inbuf):\n    \"\"\"Run a ceph command and return the results\n\n    :param conffile: The ceph.conf configuration location\n    :param cmd: The json command to run\n    :param inbuf:\n    :return: (string outbuf, string outs)\n    :raise rados.Error: Raises on rados errors\n    \"\"\"\n    cluster = rados.Rados(conffile=conffile)\n    try:\n        cluster.connect()\n        result = cluster.mon_command(json.dumps(cmd), inbuf=inbuf)\n        if result[0] is not 0:\n            raise CephError(cmd=cmd, msg=os.strerror(abs(result[0])))\n        return result[1], result[2]\n    except rados.Error as e:\n        raise e\n"@
}

/// The constructor that every written class begins with.
pub open spec fn spec_init() -> Seq<char> {
    "    def __init__(self, rados_config_file):\n        self.rados_config_file = rados_config_file\n\n"@
}

/// The methods of the commands of `module`, in the order of the commands,
/// each followed by a line break.
pub open spec fn spec_methods(commands: Seq<CommandView>, module: Module) -> Seq<char>
    decreases commands.len(),
{
    if commands.len() == 0 {
        Seq::empty()
    } else if commands.last().module_name == module {
        spec_methods(commands.drop_last(), module) + commands.last().method_text() + "\n"@
    } else {
        spec_methods(commands.drop_last(), module)
    }
}

/// Whether one of the commands belongs to `module`.
pub open spec fn has_module(commands: Seq<CommandView>, module: Module) -> bool {
    exists|i: int| 0 <= i < commands.len() && (#[trigger] commands[i]).module_name == module
}

/// The class that holds the methods of the commands of `module`; nothing
/// where no command belongs to it.
pub open spec fn spec_class(commands: Seq<CommandView>, module: Module) -> Seq<char> {
    if has_module(commands, module) {
        "class "@ + module.class_name() + ":\n"@ + spec_init() + spec_methods(commands, module)
    } else {
        Seq::empty()
    }
}

/// The whole Python module that is written for the commands: the imports,
/// the error class, the function that sends a request, and one class for each
/// module that has commands. Commands of an unknown module are left out.
pub open spec fn spec_bindings(commands: Seq<CommandView>) -> Seq<char> {
    spec_imports() + spec_exception_class() + spec_run_command() + spec_class(
        commands,
        Module::Pg,
    ) + spec_class(commands, Module::Mds) + spec_class(commands, Module::Osd) + spec_class(
        commands,
        Module::Mon,
    ) + spec_class(commands, Module::Auth) + spec_class(commands, Module::Log) + spec_class(
        commands,
        Module::ConfigKey,
    )
}

/// Whether two modules are the same.
fn same_module(a: Module, b: Module) -> (r: bool)
    ensures
        r == (a == b),
{
    a == b
}

/// Writes the class that holds the methods of the commands of `module`.
pub fn class_text(commands: &Vec<Command>, module: Module) -> (r: String)
    ensures
        r@ == spec_class(commands.deep_view(), module),
{
    let mut methods = String::new();
    let mut any = false;
    let mut i: usize = 0;
    while i < commands.len()
        invariant
            0 <= i <= commands@.len(),
            methods@ == spec_methods(commands.deep_view().take(i as int), module),
            any == has_module(commands.deep_view().take(i as int), module),
        decreases commands@.len() - i,
    {
        let ghost before = commands.deep_view().take(i as int);
        let ghost now = commands.deep_view().take(i + 1);
        proof {
            assert(now.drop_last() =~= before);
            assert(now.last() == commands.deep_view()[i as int]);
            if has_module(before, module) {
                let k = choose|k: int|
                    0 <= k < before.len() && (#[trigger] before[k]).module_name == module;
                assert(now[k].module_name == module);
            }
            if has_module(now, module) && now.last().module_name != module {
                let k = choose|k: int| 0 <= k < now.len() && (#[trigger] now[k]).module_name == module;
                assert(before[k].module_name == module);
            }
        }
        if same_module(commands[i].module_name, module) {
            any = true;
            push_str(&mut methods, commands[i].to_string().as_str());
            push_str(&mut methods, "\n");
            proof {
                assert(now[i as int].module_name == module);
            }
        }
        i += 1;
    }
    proof {
        assert(commands.deep_view().take(commands@.len() as int) =~= commands.deep_view());
    }
    if any {
        let mut out = "class ".to_owned();
        push_str(&mut out, module.to_string().as_str());
        push_str(&mut out, ":\n");
        push_str(
            &mut out,
            "    def __init__(self, rados_config_file):\n        self.rados_config_file = rados_config_file\n\n",
        );
        push_str(&mut out, methods.as_str());
        out
    } else {
        String::new()
    }
}

/// Writes the whole Python module for the commands. The commands are taken
/// as they are: duplicates are to be marked before.
pub fn bindings(commands: &Vec<Command>) -> (r: String)
    ensures
        r@ == spec_bindings(commands.deep_view()),
{
    let mut out = "from ceph_api.validator import validator\nimport json\nimport os\nimport os.path\nimport rados\nimport re\nimport six\nimport stat\nimport uuid as pyuuid\n\n".to_owned();
    push_str(
        &mut out,
        "class CephError(Exception):\n    \"\"\"Exception raised for errors with running a Ceph command\n\n        :param cmd: cmd in which the error occurred\n        :param msg: explanation of the error\n    \"\"\"\n    def __init__(self, cmd, msg):\n        self.cmd = cmd\n        self.msg = msg\n\n",
    );
    push_str(
        &mut out,
        "def run_ceph_command(conffile, cmd, inbuf):\n    \"\"\"Run a ceph command and return the results\n\n    :param conffile: The ceph.conf configuration location\n    :param cmd: The json command to run\n    :param inbuf:\n    :return: (string outbuf, string outs)\n    :raise rados.Error: Raises on rados errors\n    \"\"\"\n    cluster = rados.Rados(conffile=conffile)\n    try:\n        cluster.connect()\n        result = cluster.mon_command(json.dumps(cmd), inbuf=inbuf)\n        if result[0] is not 0:\n            raise CephError(cmd=cmd, msg=os.strerror(abs(result[0])))\n        return result[1], result[2]\n    except rados.Error as e:\n        raise e\n",
    );
    push_str(&mut out, class_text(commands, Module::Pg).as_str());
    push_str(&mut out, class_text(commands, Module::Mds).as_str());
    push_str(&mut out, class_text(commands, Module::Osd).as_str());
    push_str(&mut out, class_text(commands, Module::Mon).as_str());
    push_str(&mut out, class_text(commands, Module::Auth).as_str());
    push_str(&mut out, class_text(commands, Module::Log).as_str());
    push_str(&mut out, class_text(commands, Module::ConfigKey).as_str());
    out
}

} // verus!
