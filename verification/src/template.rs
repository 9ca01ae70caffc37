//! Templates: texts with placeholders for variables.

use crate::failure::{Error, Failure, Fault};
use crate::order::TextMap;
use crate::text::{chars_of, text_of};
use vstd::prelude::*;

verus! {

/// The values of the template variables.
pub type Vars = Map<Seq<char>, Seq<char>>;

/// `s` up to its first `c`; the whole of it, where it has none.
pub open spec fn until(s: Seq<char>, c: char) -> Seq<char>
    decreases s.len(),
{
    if s.len() == 0 || s[0] == c {
        Seq::<char>::empty()
    } else {
        seq![s[0]] + until(s.skip(1), c)
    }
}

/// `first`, then the text of `rest`, where that is no failure.
pub open spec fn then_text(first: Seq<char>, rest: Result<Seq<char>, Fault>) -> Result<
    Seq<char>,
    Fault,
> {
    match rest {
        Ok(t) => Ok(first + t),
        Err(e) => Err(e),
    }
}

/// The expansion of what is left of the template `whole`: each placeholder, a variable's name in
/// braces, gives way to the value of the variable. The first placeholder that has no end, or
/// names no variable, makes it fail.
pub open spec fn expanded_rest(rest: Seq<char>, vars: Vars, whole: Seq<char>) -> Result<
    Seq<char>,
    Fault,
>
    decreases rest.len(),
{
    if rest.len() == 0 {
        Ok(Seq::<char>::empty())
    } else if rest[0] != '{' {
        then_text(seq![rest[0]], expanded_rest(rest.skip(1), vars, whole))
    } else {
        let key = until(rest.skip(1), '}');
        if key.len() + 1 >= rest.len() {
            Err(Failure::UnclosedPlaceholder(whole))
        } else if !vars.dom().contains(key) {
            Err(Failure::UnknownVariable { name: key, input: whole })
        } else {
            then_text(vars[key], expanded_rest(rest.skip(key.len() + 2int), vars, whole))
        }
    }
}

/// The expansion of a template.
pub open spec fn expanded(input: Seq<char>, vars: Vars) -> Result<Seq<char>, Fault> {
    expanded_rest(input, vars, input)
}

/// The text of a result.
pub open spec fn text_outcome(r: Result<String, Error>) -> Result<Seq<char>, Fault> {
    match r {
        Ok(s) => Ok(s@),
        Err(e) => Err(e@),
    }
}

proof fn lemma_until(s: Seq<char>, c: char, n: int)
    requires
        0 <= n <= s.len(),
        forall|i: int| 0 <= i < n ==> s[i] != c,
        n < s.len() ==> s[n] == c,
    ensures
        until(s, c) == s.take(n),
    decreases s.len(),
{
    if n > 0 {
        assert forall|i: int| 0 <= i < n - 1 implies s.skip(1)[i] != c by {
            assert(s[i + 1] != c);
        }
        lemma_until(s.skip(1), c, n - 1);
        assert(seq![s[0]] + s.skip(1).take(n - 1) =~= s.take(n));
    } else {
        assert(s.take(0) =~= Seq::<char>::empty());
    }
}

/// Expands a template.
pub fn expand_template(input: &str, vars: &TextMap) -> (r: Result<String, Error>)
    ensures
        text_outcome(r) == expanded(input@, vars@),
{
    let chars = chars_of(input);
    let mut output = String::new();
    let mut i: usize = 0;
    assert(input@.skip(0) =~= input@);
    assert(expanded(input@, vars@) == then_text(output@, expanded_rest(input@, vars@, input@))) by {
        if let Ok(t) = expanded(input@, vars@) {
            assert(output@ + t =~= t);
        }
    }
    while i < chars.len()
        invariant
            chars@ == input@,
            i <= chars@.len(),
            expanded(input@, vars@) == then_text(
                output@,
                expanded_rest(input@.skip(i as int), vars@, input@),
            ),
        decreases chars@.len() - i,
    {
        let ghost rest = input@.skip(i as int);
        let c = chars[i];
        if c != '{' {
            let ghost before = output@;
            output.push(c);
            i += 1;
            proof {
                assert(rest.skip(1) =~= input@.skip(i as int));
                if let Ok(t) = expanded_rest(input@.skip(i as int), vars@, input@) {
                    assert(before + (seq![c] + t) =~= output@ + t);
                }
            }
            continue;
        }
        let from: usize = i + 1;
        let mut to: usize = from;
        while to < chars.len() && chars[to] != '}'
            invariant
                from <= to <= chars@.len(),
                forall|j: int| from <= j < to ==> chars@[j] != '}',
            decreases chars@.len() - to,
        {
            to += 1;
        }
        proof {
            lemma_until(rest.skip(1), '}', to - from);
            assert(rest.skip(1).take(to - from) =~= input@.subrange(from as int, to as int));
        }
        if to == chars.len() {
            return Err(Failure::UnclosedPlaceholder(input.to_owned()));
        }
        let key = text_of(&chars, from, to);
        match vars.get(key.as_str()) {
            None => {
                return Err(Failure::UnknownVariable { name: key, input: input.to_owned() });
            },
            Some(value) => {
                let ghost before = output@;
                output.append(value.as_str());
                i = to + 1;
                proof {
                    assert(rest.skip(key@.len() + 2int) =~= input@.skip(i as int));
                    if let Ok(t) = expanded_rest(input@.skip(i as int), vars@, input@) {
                        assert(before + (value@ + t) =~= output@ + t);
                    }
                }
            },
        }
    }
    assert(output@ + Seq::<char>::empty() =~= output@);
    Ok(output)
}

proof fn lemma_plain_front(front: Seq<char>, rest: Seq<char>, vars: Vars, whole: Seq<char>)
    requires
        !front.contains('{'),
    ensures
        expanded_rest(front + rest, vars, whole) == then_text(
            front,
            expanded_rest(rest, vars, whole),
        ),
    decreases front.len(),
{
    if front.len() == 0 {
        assert(front + rest =~= rest);
        if let Ok(t) = expanded_rest(rest, vars, whole) {
            assert(front + t =~= t);
        }
    } else {
        let tail = front.skip(1);
        assert(front.contains(front[0]));
        assert(!tail.contains('{')) by {
            assert forall|i: int| 0 <= i < tail.len() implies tail[i] != '{' by {
                assert(front.contains(front[i + 1]));
            }
        }
        lemma_plain_front(tail, rest, vars, whole);
        assert((front + rest).skip(1) =~= tail + rest);
        if let Ok(t) = expanded_rest(rest, vars, whole) {
            assert(seq![front[0]] + (tail + t) =~= front + t);
        }
    }
}

/// A template without an opening brace is its own expansion.
pub proof fn law_plain_template_stays(input: Seq<char>, vars: Vars)
    requires
        !input.contains('{'),
    ensures
        expanded(input, vars) == Ok::<Seq<char>, Fault>(input),
{
    let none = Seq::<char>::empty();
    lemma_plain_front(input, none, vars, input);
    assert(input + none =~= input);
}

/// The failure of a template that is a part of the template `whole`: it is that of the whole.
pub open spec fn failure_in(e: Fault, whole: Seq<char>) -> Fault {
    match e {
        Failure::UnclosedPlaceholder(_) => Failure::UnclosedPlaceholder(whole),
        Failure::UnknownVariable { name, input: _ } => Failure::UnknownVariable {
            name,
            input: whole,
        },
        other => other,
    }
}

/// A placeholder gives way to the value of its variable, the text before it stays, and what is
/// behind it is expanded by itself: the value is not expanded again. A placeholder that names no
/// variable makes the expansion fail, and so does a failure behind it.
pub proof fn law_placeholder_gives_way(
    before: Seq<char>,
    name: Seq<char>,
    after: Seq<char>,
    vars: Vars,
)
    requires
        !before.contains('{'),
        !name.contains('}'),
    ensures
        ({
            let input = before + seq!['{'] + name + seq!['}'] + after;
            if vars.dom().contains(name) {
                match expanded(after, vars) {
                    Ok(rest) => expanded(input, vars) == Ok::<Seq<char>, Fault>(
                        before + vars[name] + rest,
                    ),
                    Err(e) => expanded(input, vars) == Err::<Seq<char>, Fault>(
                        failure_in(e, input),
                    ),
                }
            } else {
                expanded(input, vars) == Err::<Seq<char>, Fault>(
                    Failure::UnknownVariable { name, input },
                )
            }
        }),
{
    let input = before + seq!['{'] + name + seq!['}'] + after;
    let rest = seq!['{'] + name + seq!['}'] + after;
    assert(input =~= before + rest);
    lemma_plain_front(before, rest, vars, input);
    let behind = rest.skip(1);
    assert forall|i: int| 0 <= i < name.len() implies behind[i] != '}' by {
        assert(behind[i] == name[i]);
        assert(name.contains(name[i]));
    }
    lemma_until(behind, '}', name.len() as int);
    assert(behind.take(name.len() as int) =~= name);
    assert(rest.skip(name.len() + 2int) =~= after);
    lemma_whole_matters_not(after, vars, after, input);
    if vars.dom().contains(name) {
        if let Ok(t) = expanded(after, vars) {
            assert(before + (vars[name] + t) =~= before + vars[name] + t);
        }
    }
}

/// A placeholder that has no end makes the expansion fail, whatever it names.
pub proof fn law_unclosed_placeholder(before: Seq<char>, rest: Seq<char>, vars: Vars)
    requires
        !before.contains('{'),
        !rest.contains('}'),
    ensures
        expanded(before + seq!['{'] + rest, vars) == Err::<Seq<char>, Fault>(
            Failure::UnclosedPlaceholder(before + seq!['{'] + rest),
        ),
{
    let input = before + seq!['{'] + rest;
    let open = seq!['{'] + rest;
    assert(input =~= before + open);
    lemma_plain_front(before, open, vars, input);
    assert(open.skip(1) =~= rest);
    assert forall|i: int| 0 <= i < rest.len() implies rest[i] != '}' by {
        assert(rest.contains(rest[i]));
    }
    lemma_until(rest, '}', rest.len() as int);
    assert(rest.take(rest.len() as int) =~= rest);
}

/// The template that a failure names makes no difference otherwise.
proof fn lemma_whole_matters_not(rest: Seq<char>, vars: Vars, a: Seq<char>, b: Seq<char>)
    ensures
        match expanded_rest(rest, vars, a) {
            Ok(t) => expanded_rest(rest, vars, b) == Ok::<Seq<char>, Fault>(t),
            Err(e) => expanded_rest(rest, vars, b) == Err::<Seq<char>, Fault>(failure_in(e, b)),
        },
    decreases rest.len(),
{
    if rest.len() > 0 {
        if rest[0] != '{' {
            lemma_whole_matters_not(rest.skip(1), vars, a, b);
        } else {
            let key = until(rest.skip(1), '}');
            if key.len() + 1 < rest.len() {
                lemma_whole_matters_not(rest.skip(key.len() + 2int), vars, a, b);
            }
        }
    }
}

} // verus!
