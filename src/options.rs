use vstd::prelude::*;
use vstd::string::*;

use crate::commands::{i32_of, parse_i32, same_text};
use crate::messages::{append_int, int_text};

verus! {

/// A boolean option, set by the text `true` or `false`.
#[derive(Clone, Copy, Debug)]
pub struct Check {
    pub value: bool,
    pub default: bool,
}

impl Check {
    pub fn new(default: bool) -> (r: Self)
        ensures
            r.value == default,
            r.default == default,
    {
        Check { value: default, default }
    }

    /// Sets the value from `true` or `false`; any other text is an error and changes nothing.
    pub fn set(&mut self, value: &str) -> (r: Result<(), String>)
        ensures
            r is Ok <==> (value@ == "true"@ || value@ == "false"@),
            r is Ok ==> final(self).value == (value@ == "true"@),
            r is Err ==> *final(self) == *old(self),
            final(self).default == old(self).default,
    {
        proof {
            reveal_strlit("true");
            reveal_strlit("false");
        }
        if same_text(value, "true") {
            self.value = true;
            Ok(())
        } else if same_text(value, "false") {
            self.value = false;
            Ok(())
        } else {
            Err("Invalid option value".to_string())
        }
    }

    /// The description of the option: `type check default <default>`.
    pub fn display(&self) -> (r: String)
        ensures
            r@ == "type check default "@ + bool_text(self.default),
    {
        let mut r = String::new();
        r.append("type check default ");
        append_bool(&mut r, self.default);
        r
    }
}

pub open spec fn bool_text(b: bool) -> Seq<char> {
    if b {
        "true"@
    } else {
        "false"@
    }
}

fn append_bool(out: &mut String, b: bool)
    ensures
        final(out)@ == old(out)@ + bool_text(b),
{
    if b {
        out.append("true");
    } else {
        out.append("false");
    }
}

/// An integer option within `[min, max]`.
#[derive(Clone, Copy, Debug)]
pub struct Spin {
    pub value: i32,
    pub default: i32,
    pub min: i32,
    pub max: i32,
}

impl Spin {
    pub fn new(default: i32, min: i32, max: i32) -> (r: Self)
        ensures
            r.value == default && r.default == default && r.min == min && r.max == max,
    {
        Spin { value: default, default, min, max }
    }

    /// Sets the value from a decimal integer within the bounds; anything else is an error and
    /// changes nothing.
    pub fn set(&mut self, value: &str) -> (r: Result<(), String>)
        ensures
            r is Ok <==> (i32_of(value@) matches Some(v) && old(self).min <= v <= old(self).max),
            r is Ok ==> Some(final(self).value as int) == i32_of(value@),
            r is Err ==> *final(self) == *old(self),
            final(self).default == old(self).default,
            final(self).min == old(self).min,
            final(self).max == old(self).max,
    {
        match parse_i32(value) {
            Some(v) => {
                if v < self.min || v > self.max {
                    return Err("Invalid option value".to_string());
                }
                self.value = v;
                Ok(())
            },
            None => Err("Could not parse value".to_string()),
        }
    }

    /// The description of the option: `type spin default <d> min <min> max <max>`.
    pub fn display(&self) -> (r: String)
        ensures
            r@ == "type spin default "@ + int_text(self.default as int) + " min "@ + int_text(
                self.min as int,
            ) + " max "@ + int_text(self.max as int),
    {
        let mut r = String::new();
        r.append("type spin default ");
        append_int(&mut r, self.default as i64);
        r.append(" min ");
        append_int(&mut r, self.min as i64);
        r.append(" max ");
        append_int(&mut r, self.max as i64);
        r
    }
}

/// A choice among fixed texts.
#[derive(Clone, Debug)]
pub struct Combo {
    pub value: String,
    pub default: String,
    pub vars: Vec<String>,
}

impl Combo {
    pub fn new(default: &str, vars: Vec<String>) -> (r: Self)
        ensures
            r.value@ == default@,
            r.default@ == default@,
            r.vars@ == vars@,
    {
        Combo { value: default.to_string(), default: default.to_string(), vars }
    }

    /// Sets the value to one of the choices; any other text is an error and changes nothing.
    pub fn set(&mut self, value: &str) -> (r: Result<(), String>)
        ensures
            r is Ok <==> exists|k: int| 0 <= k < old(self).vars@.len() && #[trigger] old(self).vars@[k]@ == value@,
            r is Ok ==> final(self).value@ == value@,
            r is Err ==> final(self).value@ == old(self).value@,
            final(self).vars@ == old(self).vars@,
            final(self).default@ == old(self).default@,
    {
        let mut k: usize = 0;
        while k < self.vars.len()
            invariant
                k <= self.vars@.len(),
                self.vars@ == old(self).vars@,
                self.value == old(self).value,
                self.default == old(self).default,
                forall|j: int| 0 <= j < k ==> #[trigger] self.vars@[j]@ != value@,
            decreases self.vars@.len() - k,
        {
            if same_text(self.vars[k].as_str(), value) {
                self.value = value.to_string();
                proof {
                    assert(old(self).vars@[k as int]@ == value@);
                }
                return Ok(());
            }
            k = k + 1;
        }
        Err("Invalid option value".to_string())
    }

    /// The description of the option: `type combo default <default>`, then ` var <choice>`
    /// for each choice.
    pub fn display(&self) -> (r: String)
        ensures
            r@ == "type combo default "@ + self.default@ + vars_text(self.vars@),
    {
        let mut r = String::new();
        r.append("type combo default ");
        r.append(self.default.as_str());
        let ghost head = r@;
        let mut k: usize = 0;
        while k < self.vars.len()
            invariant
                k <= self.vars@.len(),
                r@ == head + vars_text(self.vars@.subrange(0, k as int)),
            decreases self.vars@.len() - k,
        {
            r.append(" var ");
            r.append(self.vars[k].as_str());
            proof {
                let sub = self.vars@.subrange(0, k + 1);
                assert(sub.drop_last() =~= self.vars@.subrange(0, k as int));
                assert(r@ =~= head + vars_text(sub));
            }
            k = k + 1;
        }
        proof {
            assert(self.vars@.subrange(0, k as int) =~= self.vars@);
        }
        r
    }
}

/// ` var <choice>` for each choice.
pub open spec fn vars_text(vars: Seq<String>) -> Seq<char>
    decreases vars.len(),
{
    if vars.len() == 0 {
        seq![]
    } else {
        vars_text(vars.drop_last()) + " var "@ + vars.last()@
    }
}

/// A free text option.
#[derive(Clone, Debug)]
pub struct String_ {
    pub value: String,
    pub default: String,
}

impl String_ {
    pub fn new(default: &str) -> (r: Self)
        ensures
            r.value@ == default@,
            r.default@ == default@,
    {
        String_ { value: default.to_string(), default: default.to_string() }
    }

    /// Sets the value to `value`.
    pub fn set(&mut self, value: &str)
        ensures
            final(self).value@ == value@,
            final(self).default@ == old(self).default@,
    {
        self.value = value.to_string();
    }

    /// The description of the option: `type string default <default>`.
    pub fn display(&self) -> (r: String)
        ensures
            r@ == "type string default "@ + self.default@,
    {
        let mut r = String::new();
        r.append("type string default ");
        r.append(self.default.as_str());
        r
    }
}

} // verus!
