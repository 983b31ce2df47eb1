//! The rules by which `rename_all` changes the case of identifiers.

use vstd::prelude::*;
use vstd::string::*;
use crate::text::{
    ascii_lower, ascii_upper, is_upper, is_uppercase, push_char, str_equal,
    to_ascii_lower, to_ascii_upper,
};

verus! {

/// A way to change the case of the names of fields and variants.
#[derive(Debug, Clone, Copy, PartialEq, Eq, Structural)]
pub enum RenameRule {
    /// Leave the name as it is.
    Unchanged,
    /// `lowercase`
    LowerCase,
    /// `UPPERCASE`
    UpperCase,
    /// `PascalCase`
    PascalCase,
    /// `camelCase`
    CamelCase,
    /// `snake_case`
    SnakeCase,
    /// `SCREAMING_SNAKE_CASE`
    ScreamingSnakeCase,
    /// `kebab-case`
    KebabCase,
    /// `SCREAMING-KEBAB-CASE`
    ScreamingKebabCase,
}

/// The rule that a token names; tokens that name none leave names unchanged.
pub open spec fn rule_of(token: Seq<char>) -> RenameRule {
    if token == "lowercase"@ {
        RenameRule::LowerCase
    } else if token == "UPPERCASE"@ {
        RenameRule::UpperCase
    } else if token == "PascalCase"@ {
        RenameRule::PascalCase
    } else if token == "camelCase"@ {
        RenameRule::CamelCase
    } else if token == "snake_case"@ {
        RenameRule::SnakeCase
    } else if token == "SCREAMING_SNAKE_CASE"@ {
        RenameRule::ScreamingSnakeCase
    } else if token == "kebab-case"@ {
        RenameRule::KebabCase
    } else if token == "SCREAMING-KEBAB-CASE"@ {
        RenameRule::ScreamingKebabCase
    } else {
        RenameRule::Unchanged
    }
}

/// Every character in upper case, as far as ASCII goes.
pub open spec fn upper(s: Seq<char>) -> Seq<char> {
    Seq::new(s.len(), |i: int| ascii_upper(s[i]))
}

/// Every character in lower case, as far as ASCII goes.
pub open spec fn lower(s: Seq<char>) -> Seq<char> {
    Seq::new(s.len(), |i: int| ascii_lower(s[i]))
}

/// Every `_` replaced by `-`.
pub open spec fn dashed(s: Seq<char>) -> Seq<char> {
    Seq::new(
        s.len(),
        |i: int|
            if s[i] == '_' {
                '-'
            } else {
                s[i]
            },
    )
}

/// The first character in lower case, as far as ASCII goes.
pub open spec fn lower_first(s: Seq<char>) -> Seq<char> {
    if s.len() == 0 {
        s
    } else {
        s.update(0, ascii_lower(s[0]))
    }
}

/// From Pascal case to snake case: a `_` before every upper-case character
/// but the first, and every character in lower case, as far as ASCII goes.
pub open spec fn snake(s: Seq<char>) -> Seq<char>
    decreases s.len(),
{
    if s.len() == 0 {
        Seq::empty()
    } else {
        let before = snake(s.drop_last());
        let ch = s.last();
        if s.len() > 1 && is_upper(ch) {
            before.push('_').push(ascii_lower(ch))
        } else {
            before.push(ascii_lower(ch))
        }
    }
}

/// From snake case to Pascal case: every `_` dropped, and the first character
/// and every character behind a `_` in upper case, as far as ASCII goes.
pub open spec fn pascal(s: Seq<char>) -> Seq<char>
    decreases s.len(),
{
    if s.len() == 0 {
        Seq::empty()
    } else {
        let before = pascal(s.drop_last());
        let ch = s.last();
        if ch == '_' {
            before
        } else if s.len() == 1 || s[s.len() - 2] == '_' {
            before.push(ascii_upper(ch))
        } else {
            before.push(ch)
        }
    }
}

/// The name of a variant, declared in Pascal case, under a rule.
pub open spec fn variant_under(rule: RenameRule, name: Seq<char>) -> Seq<char> {
    match rule {
        RenameRule::Unchanged => name,
        RenameRule::PascalCase => name,
        RenameRule::LowerCase => lower(name),
        RenameRule::UpperCase => upper(name),
        RenameRule::CamelCase => lower_first(name),
        RenameRule::SnakeCase => snake(name),
        RenameRule::ScreamingSnakeCase => upper(snake(name)),
        RenameRule::KebabCase => dashed(snake(name)),
        RenameRule::ScreamingKebabCase => dashed(upper(snake(name))),
    }
}

/// The name of a field, declared in snake case, under a rule.
pub open spec fn field_under(rule: RenameRule, name: Seq<char>) -> Seq<char> {
    match rule {
        RenameRule::Unchanged => name,
        RenameRule::LowerCase => name,
        RenameRule::SnakeCase => name,
        RenameRule::UpperCase => upper(name),
        RenameRule::PascalCase => pascal(name),
        RenameRule::CamelCase => lower_first(pascal(name)),
        RenameRule::ScreamingSnakeCase => upper(name),
        RenameRule::KebabCase => dashed(name),
        RenameRule::ScreamingKebabCase => dashed(upper(name)),
    }
}

/// A copy of the text.
pub fn copy_text(s: &str) -> (r: String)
    ensures
        r@ == s@,
{
    s.to_owned()
}

/// The text in upper case, as far as ASCII goes.
pub fn to_upper(s: &str) -> (r: String)
    ensures
        r@ == upper(s@),
{
    let n = s.unicode_len();
    let mut out = String::new();
    let mut i: usize = 0;
    while i < n
        invariant
            i <= n,
            n == s@.len(),
            out@ == upper(s@).take(i as int),
        decreases n - i,
    {
        push_char(&mut out, to_ascii_upper(s.get_char(i)));
        proof {
            assert(upper(s@).take(i as int + 1) == upper(s@).take(i as int).push(
                ascii_upper(s@[i as int]),
            ));
        }
        i += 1;
    }
    proof {
        assert(upper(s@).take(n as int) == upper(s@));
    }
    out
}

/// The text in lower case, as far as ASCII goes.
pub fn to_lower(s: &str) -> (r: String)
    ensures
        r@ == lower(s@),
{
    let n = s.unicode_len();
    let mut out = String::new();
    let mut i: usize = 0;
    while i < n
        invariant
            i <= n,
            n == s@.len(),
            out@ == lower(s@).take(i as int),
        decreases n - i,
    {
        push_char(&mut out, to_ascii_lower(s.get_char(i)));
        proof {
            assert(lower(s@).take(i as int + 1) == lower(s@).take(i as int).push(
                ascii_lower(s@[i as int]),
            ));
        }
        i += 1;
    }
    proof {
        assert(lower(s@).take(n as int) == lower(s@));
    }
    out
}

/// The text with `-` for every `_`.
pub fn to_dashed(s: &str) -> (r: String)
    ensures
        r@ == dashed(s@),
{
    let n = s.unicode_len();
    let mut out = String::new();
    let mut i: usize = 0;
    while i < n
        invariant
            i <= n,
            n == s@.len(),
            out@ == dashed(s@).take(i as int),
        decreases n - i,
    {
        let ch = s.get_char(i);
        push_char(
            &mut out,
            if ch == '_' {
                '-'
            } else {
                ch
            },
        );
        proof {
            assert(dashed(s@).take(i as int + 1) == dashed(s@).take(i as int).push(
                dashed(s@)[i as int],
            ));
        }
        i += 1;
    }
    proof {
        assert(dashed(s@).take(n as int) == dashed(s@));
    }
    out
}

/// The text with its first character in lower case, as far as ASCII goes.
pub fn to_lower_first(s: &str) -> (r: String)
    ensures
        r@ == lower_first(s@),
{
    let n = s.unicode_len();
    let mut out = String::new();
    let mut i: usize = 0;
    while i < n
        invariant
            i <= n,
            n == s@.len(),
            out@ == lower_first(s@).take(i as int),
        decreases n - i,
    {
        let ch = s.get_char(i);
        push_char(
            &mut out,
            if i == 0 {
                to_ascii_lower(ch)
            } else {
                ch
            },
        );
        proof {
            assert(lower_first(s@).take(i as int + 1) == lower_first(s@).take(i as int).push(
                lower_first(s@)[i as int],
            ));
        }
        i += 1;
    }
    proof {
        assert(lower_first(s@).take(n as int) == lower_first(s@));
    }
    out
}

/// The text from Pascal case in snake case.
pub fn to_snake(s: &str) -> (r: String)
    ensures
        r@ == snake(s@),
{
    let n = s.unicode_len();
    let mut out = String::new();
    let mut i: usize = 0;
    while i < n
        invariant
            i <= n,
            n == s@.len(),
            out@ == snake(s@.take(i as int)),
        decreases n - i,
    {
        let ch = s.get_char(i);
        proof {
            assert(s@.take(i as int + 1).drop_last() == s@.take(i as int));
        }
        if i > 0 && is_uppercase(ch) {
            push_char(&mut out, '_');
        }
        push_char(&mut out, to_ascii_lower(ch));
        i += 1;
    }
    proof {
        assert(s@.take(n as int) == s@);
    }
    out
}

/// The text from snake case in Pascal case.
pub fn to_pascal(s: &str) -> (r: String)
    ensures
        r@ == pascal(s@),
{
    let n = s.unicode_len();
    let mut out = String::new();
    let mut capitalize = true;
    let mut i: usize = 0;
    while i < n
        invariant
            i <= n,
            n == s@.len(),
            out@ == pascal(s@.take(i as int)),
            capitalize == (i == 0 || s@[i as int - 1] == '_'),
        decreases n - i,
    {
        let ch = s.get_char(i);
        proof {
            assert(s@.take(i as int + 1).drop_last() == s@.take(i as int));
        }
        if ch == '_' {
            capitalize = true;
        } else if capitalize {
            push_char(&mut out, to_ascii_upper(ch));
            capitalize = false;
        } else {
            push_char(&mut out, ch);
        }
        i += 1;
    }
    proof {
        assert(s@.take(n as int) == s@);
    }
    out
}

impl RenameRule {
    /// The rule that the token names, if it names one.
    pub fn from_str(token: &str) -> (r: Option<RenameRule>)
        ensures
            match r {
                Some(rule) => rule == rule_of(token@) && rule != RenameRule::Unchanged,
                None => rule_of(token@) == RenameRule::Unchanged,
            },
    {
        if str_equal(token, "lowercase") {
            Some(RenameRule::LowerCase)
        } else if str_equal(token, "UPPERCASE") {
            Some(RenameRule::UpperCase)
        } else if str_equal(token, "PascalCase") {
            Some(RenameRule::PascalCase)
        } else if str_equal(token, "camelCase") {
            Some(RenameRule::CamelCase)
        } else if str_equal(token, "snake_case") {
            Some(RenameRule::SnakeCase)
        } else if str_equal(token, "SCREAMING_SNAKE_CASE") {
            Some(RenameRule::ScreamingSnakeCase)
        } else if str_equal(token, "kebab-case") {
            Some(RenameRule::KebabCase)
        } else if str_equal(token, "SCREAMING-KEBAB-CASE") {
            Some(RenameRule::ScreamingKebabCase)
        } else {
            None
        }
    }

    /// The rule that the token names; `Unchanged` where it names none.
    pub fn for_token(token: &str) -> (r: RenameRule)
        ensures
            r == rule_of(token@),
    {
        match RenameRule::from_str(token) {
            Some(rule) => rule,
            None => RenameRule::Unchanged,
        }
    }

    /// The name of a variant under the rule.
    pub fn apply_to_variant(self, variant: &str) -> (r: String)
        ensures
            r@ == variant_under(self, variant@),
    {
        match self {
            RenameRule::Unchanged => copy_text(variant),
            RenameRule::PascalCase => copy_text(variant),
            RenameRule::LowerCase => to_lower(variant),
            RenameRule::UpperCase => to_upper(variant),
            RenameRule::CamelCase => to_lower_first(variant),
            RenameRule::SnakeCase => to_snake(variant),
            RenameRule::ScreamingSnakeCase => {
                let snake = to_snake(variant);
                to_upper(snake.as_str())
            },
            RenameRule::KebabCase => {
                let snake = to_snake(variant);
                to_dashed(snake.as_str())
            },
            RenameRule::ScreamingKebabCase => {
                let snake = to_snake(variant);
                let screaming = to_upper(snake.as_str());
                to_dashed(screaming.as_str())
            },
        }
    }

    /// The name of a field under the rule.
    pub fn apply_to_field(self, field: &str) -> (r: String)
        ensures
            r@ == field_under(self, field@),
    {
        match self {
            RenameRule::Unchanged => copy_text(field),
            RenameRule::LowerCase => copy_text(field),
            RenameRule::SnakeCase => copy_text(field),
            RenameRule::UpperCase => to_upper(field),
            RenameRule::PascalCase => to_pascal(field),
            RenameRule::CamelCase => {
                let pascal = to_pascal(field);
                to_lower_first(pascal.as_str())
            },
            RenameRule::ScreamingSnakeCase => to_upper(field),
            RenameRule::KebabCase => to_dashed(field),
            RenameRule::ScreamingKebabCase => {
                let screaming = to_upper(field);
                to_dashed(screaming.as_str())
            },
        }
    }
}

} // verus!
