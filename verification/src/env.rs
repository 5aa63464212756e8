//! Environment variables in configuration values.
use vstd::prelude::*;
use crate::strings::{chars_of, push_chars_of, run_end, str_equal, string_of};

verus! {

/// The variables of a process environment, as name and value pairs. Where a
/// name stands twice, the first pair counts.
pub struct Environment {
    pub vars: Vec<(String, String)>,
}

impl View for Environment {
    type V = Seq<(Seq<char>, Seq<char>)>;

    open spec fn view(&self) -> Seq<(Seq<char>, Seq<char>)> {
        self.vars@.map_values(|p: (String, String)| (p.0@, p.1@))
    }
}

/// The value of the variable `name`.
pub open spec fn lookup(vars: Seq<(Seq<char>, Seq<char>)>, name: Seq<char>) -> Option<Seq<char>>
    decreases vars.len(),
{
    if vars.len() == 0 {
        None
    } else if vars[0].0 == name {
        Some(vars[0].1)
    } else {
        lookup(vars.skip(1), name)
    }
}

impl Environment {
    /// The environment with no variable.
    pub fn new() -> (env: Environment)
        ensures
            env@ == Seq::<(Seq<char>, Seq<char>)>::empty(),
    {
        let env = Environment { vars: Vec::new() };
        assert(env@ =~= Seq::<(Seq<char>, Seq<char>)>::empty());
        env
    }

    /// Adds a variable behind those that are there.
    pub fn push(&mut self, name: String, value: String)
        ensures
            final(self)@ == old(self)@.push((name@, value@)),
    {
        self.vars.push((name, value));
        assert(self@ =~= old(self)@.push((name@, value@)));
    }

    /// The value of the variable `name`.
    pub fn get(&self, name: &str) -> (r: Option<&str>)
        ensures
            match r {
                Some(v) => lookup(self@, name@) == Some(v@),
                None => lookup(self@, name@) is None,
            },
    {
        let mut i: usize = 0;
        proof {
            assert(self@.skip(0) =~= self@);
        }
        while i < self.vars.len()
            invariant
                i <= self.vars.len(),
                lookup(self@, name@) == lookup(self@.skip(i as int), name@),
            decreases self.vars.len() - i,
        {
            proof {
                assert(self@.skip(i as int).skip(1) =~= self@.skip(i + 1));
            }
            if str_equal(self.vars[i].0.as_str(), name) {
                return Some(self.vars[i].1.as_str());
            }
            i += 1;
        }
        None
    }
}

/// Why a value could not be expanded.
#[derive(Debug)]
pub enum ExpandError {
    /// The value holds `${` with no `}` behind it. Carries the value.
    Unclosed(String),
    /// The value names a variable that the environment lacks. Carries the
    /// name.
    Missing(String),
    /// The configuration has no application id, and no organisation from
    /// which to make one.
    ApplicationIdRequired,
}

/// `ExpandError`, with the text it carries as characters.
pub enum ExpandFault {
    Unclosed(Seq<char>),
    Missing(Seq<char>),
    ApplicationIdRequired,
}

impl View for ExpandError {
    type V = ExpandFault;

    open spec fn view(&self) -> ExpandFault {
        match self {
            ExpandError::Unclosed(value) => ExpandFault::Unclosed(value@),
            ExpandError::Missing(name) => ExpandFault::Missing(name@),
            ExpandError::ApplicationIdRequired => ExpandFault::ApplicationIdRequired,
        }
    }
}

/// A character of a variable name written without braces: an ASCII letter
/// or digit, or `_`.
pub open spec fn is_var_char(c: char) -> bool {
    ('0' <= c && c <= '9') || ('A' <= c && c <= 'Z') || ('a' <= c && c <= 'z') || c == '_'
}

/// `head` in front of the expansion `rest`, if that succeeded.
pub open spec fn prepend(head: Seq<char>, rest: Result<Seq<char>, ExpandFault>) -> Result<
    Seq<char>,
    ExpandFault,
> {
    match rest {
        Ok(tail) => Ok(head + tail),
        Err(e) => Err(e),
    }
}

/// The value of variable `name`, in front of the expansion `rest`.
pub open spec fn substitute(
    vars: Seq<(Seq<char>, Seq<char>)>,
    name: Seq<char>,
    rest: Result<Seq<char>, ExpandFault>,
) -> Result<Seq<char>, ExpandFault> {
    match lookup(vars, name) {
        Some(value) => prepend(value, rest),
        None => Err(ExpandFault::Missing(name)),
    }
}

/// The expansion of `chars[i..]`. `${NAME}` and `$NAME` stand for the value
/// of the variable `NAME`; in the second form the name is the longest run
/// of letters, digits and `_` behind the `$`, and a `$` with no such run
/// behind it stands for itself. The first variable that is missing, or the
/// first `${` that is never closed, is the error.
pub open spec fn expand_from(chars: Seq<char>, i: int, vars: Seq<(Seq<char>, Seq<char>)>) -> Result<
    Seq<char>,
    ExpandFault,
>
    decreases chars.len() - i,
{
    if i < 0 || i >= chars.len() {
        Ok(Seq::empty())
    } else if chars[i] == '$' && i + 1 < chars.len() && chars[i + 1] == '{' {
        let end = run_end(chars, i + 2, |c: char| c != '}');
        if i + 2 <= end < chars.len() {
            substitute(vars, chars.subrange(i + 2, end), expand_from(chars, end + 1, vars))
        } else {
            Err(ExpandFault::Unclosed(chars))
        }
    } else {
        let end = run_end(chars, i + 1, |c: char| is_var_char(c));
        if chars[i] == '$' && i + 1 < end <= chars.len() {
            substitute(vars, chars.subrange(i + 1, end), expand_from(chars, end, vars))
        } else {
            prepend(seq![chars[i]], expand_from(chars, i + 1, vars))
        }
    }
}

/// The expansion of a whole value.
pub open spec fn expanded(value: Seq<char>, vars: Seq<(Seq<char>, Seq<char>)>) -> Result<
    Seq<char>,
    ExpandFault,
> {
    expand_from(value, 0, vars)
}

fn is_var(c: char) -> (r: bool)
    ensures
        r == is_var_char(c),
{
    ('0' <= c && c <= '9') || ('A' <= c && c <= 'Z') || ('a' <= c && c <= 'z') || c == '_'
}

fn slice_string(chars: &Vec<char>, from: usize, to: usize) -> (s: String)
    requires
        from <= to <= chars.len(),
    ensures
        s@ == chars@.subrange(from as int, to as int),
{
    let mut part: Vec<char> = Vec::new();
    let mut k: usize = from;
    while k < to
        invariant
            from <= k <= to <= chars.len(),
            part@ == chars@.subrange(from as int, k as int),
        decreases to - k,
    {
        part.push(chars[k]);
        assert(chars@.subrange(from as int, k + 1) =~= chars@.subrange(from as int, k as int).push(
            chars@[k as int],
        ));
        k += 1;
    }
    let s = string_of(&part, 0);
    assert(part@.skip(0) =~= part@);
    s
}

/// Replaces `${NAME}` and `$NAME` in `input` by the values that `env` gives.
pub fn expand_env_vars(input: &str, env: &Environment) -> (res: Result<String, ExpandError>)
    ensures
        match res {
            Ok(out) => expanded(input@, env@) == Ok::<Seq<char>, ExpandFault>(out@),
            Err(e) => expanded(input@, env@) == Err::<Seq<char>, ExpandFault>(e@),
        },
{
    let chars = chars_of(input);
    let mut out: Vec<char> = Vec::new();
    let mut i: usize = 0;
    proof {
        assert(prepend(out@, expand_from(chars@, 0, env@)) == expand_from(chars@, 0, env@)) by {
            match expand_from(chars@, 0, env@) {
                Ok(t) => {
                    assert(out@ + t =~= t);
                },
                Err(_) => {},
            }
        }
    }
    while i < chars.len()
        invariant
            chars@ == input@,
            i <= chars.len(),
            prepend(out@, expand_from(chars@, i as int, env@)) == expanded(input@, env@),
        decreases chars.len() - i,
    {
        let ghost before = out@;
        if chars[i] == '$' && i + 1 < chars.len() && chars[i + 1] == '{' {
            let mut end: usize = i + 2;
            while end < chars.len() && chars[end] != '}'
                invariant
                    i + 2 <= end <= chars.len(),
                    run_end(chars@, end as int, |c: char| c != '}') == run_end(
                        chars@,
                        i + 2,
                        |c: char| c != '}',
                    ),
                decreases chars.len() - end,
            {
                end += 1;
            }
            if end >= chars.len() {
                proof {
                    assert(chars@.skip(0) =~= chars@);
                }
                return Err(ExpandError::Unclosed(string_of(&chars, 0)));
            }
            let key = slice_string(&chars, i + 2, end);
            match env.get(key.as_str()) {
                Some(value) => {
                    push_chars_of(&mut out, value);
                    proof {
                        let rest = expand_from(chars@, end + 1, env@);
                        match rest {
                            Ok(t) => {
                                assert(before + (value@ + t) =~= (before + value@) + t);
                            },
                            Err(_) => {},
                        }
                    }
                    i = end + 1;
                },
                None => {
                    return Err(ExpandError::Missing(key));
                },
            }
        } else {
            let mut end: usize = i + 1;
            while end < chars.len() && is_var(chars[end])
                invariant
                    i + 1 <= end <= chars.len(),
                    run_end(chars@, end as int, |c: char| is_var_char(c)) == run_end(
                        chars@,
                        i + 1,
                        |c: char| is_var_char(c),
                    ),
                decreases chars.len() - end,
            {
                end += 1;
            }
            if chars[i] == '$' && end > i + 1 {
                let key = slice_string(&chars, i + 1, end);
                match env.get(key.as_str()) {
                    Some(value) => {
                        push_chars_of(&mut out, value);
                        proof {
                            let rest = expand_from(chars@, end as int, env@);
                            match rest {
                                Ok(t) => {
                                    assert(before + (value@ + t) =~= (before + value@) + t);
                                },
                                Err(_) => {},
                            }
                        }
                        i = end;
                    },
                    None => {
                        return Err(ExpandError::Missing(key));
                    },
                }
            } else {
                out.push(chars[i]);
                proof {
                    let rest = expand_from(chars@, i + 1, env@);
                    match rest {
                        Ok(t) => {
                            assert(before + (seq![chars@[i as int]] + t) =~= before.push(
                                chars@[i as int],
                            ) + t);
                        },
                        Err(_) => {},
                    }
                }
                i += 1;
            }
        }
    }
    proof {
        assert(out@ + Seq::<char>::empty() =~= out@);
        assert(out@.skip(0) =~= out@);
    }
    Ok(string_of(&out, 0))
}

} // verus!
