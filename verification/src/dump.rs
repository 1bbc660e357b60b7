//! Human-readable text of expressions and of evaluation contexts.
use vstd::prelude::*;
use vstd::string::StringExecFns;
use crate::context::Bindings;
use crate::eval::EvalEnv;
use crate::expr::{lemma_terms_of, names_model, term_of, terms_of, Expr, Term};
use crate::text::push_char;
use crate::value::value_text;

verus! {

broadcast use vstd::std_specs::vec::group_vec_axioms;

/// What std's `Debug` formatting writes for a list of strings.
pub uninterp spec fn debug_list_text(items: Seq<Seq<char>>) -> Seq<char>;

/// `format!("{:?}", items)` from std: the `Debug` text of a list of strings (quoted,
/// escaped, separated and bracketed as std does it). Nothing more is claimed of it than that
/// it depends on the strings alone.
#[verifier::external_body]
fn debug_list(items: &Vec<String>) -> (r: String)
    ensures
        r@ == debug_list_text(names_model(items@)),
{
    format!("{:?}", items)
}

/// The text of a lambda from the text of its parameter list and that of its body.
pub open spec fn lambda_text(params: Seq<char>, body: Seq<char>) -> Seq<char> {
    seq!['\\'] + params + seq![' ', '-', '>', ' '] + body
}

/// The text of an argument tuple from the text of the list of its arguments' texts.
pub open spec fn args_tuple_text(list: Seq<char>) -> Seq<char> {
    seq!['A', 'r', 'g', 's', 'T', 'u', 'p', 'l', 'e', '('] + list + seq![')']
}

/// Writes a lambda: a backslash, the text of its parameter list, an arrow and its body.
pub fn render_lambda(params: &str, body: &str) -> (r: String)
    ensures
        r@ == lambda_text(params@, body@),
{
    let mut out = String::new();
    push_char(&mut out, '\\');
    out.append(params);
    out.append(" -> ");
    out.append(body);
    proof {
        reveal_strlit(" -> ");
        assert(out@ =~= lambda_text(params@, body@));
    }
    out
}

/// Writes an argument tuple around the text of the list of its arguments' texts.
pub fn render_args_tuple(list: &str) -> (r: String)
    ensures
        r@ == args_tuple_text(list@),
{
    let mut out = String::new();
    out.append("ArgsTuple(");
    out.append(list);
    push_char(&mut out, ')');
    proof {
        reveal_strlit("ArgsTuple(");
        assert(out@ =~= args_tuple_text(list@));
    }
    out
}

/// The texts joined with `sep` between each two of them.
pub open spec fn join_texts(s: Seq<Seq<char>>, sep: Seq<char>) -> Seq<char>
    decreases s.len(),
{
    if s.len() == 0 {
        seq![]
    } else if s.len() == 1 {
        s[0]
    } else {
        join_texts(s.drop_last(), sep) + sep + s.last()
    }
}

/// The text of a term: an atom as the text of its value, a function or variable as its name,
/// `\[params] -> body` for a lambda, `f(a, b)` for an application to an argument tuple and
/// `f((NON_ARGS_TUPLE x))` for another one, `Let n = v in` and the body on the next line for
/// a `let`, and `ArgsTuple([..])` for an argument tuple.
pub open spec fn dump_text<T, U>(t: Term<T, U>) -> Seq<char>
    decreases t,
{
    match t {
        Term::Atom(v, _, _) => value_text(v),
        Term::LLMFunction(n, _, _) => n,
        Term::Var(n, _) => n,
        Term::Lambda(params, body, _) => lambda_text(debug_list_text(params), dump_text(*body)),
        Term::App(f, x, _) => dump_text(*f) + seq!['('] + match *x {
            Term::ArgsTuple(args, _) => join_texts(dump_texts(args), seq![',', ' ']),
            _ => seq!['(', 'N', 'O', 'N', '_', 'A', 'R', 'G', 'S', '_', 'T', 'U', 'P', 'L', 'E', ' ']
                + dump_text(*x) + seq![')'],
        } + seq![')'],
        Term::Let(n, v, b, _) => seq!['L', 'e', 't', ' '] + n + seq![' ', '=', ' '] + dump_text(*v)
            + seq![' ', 'i', 'n', '\n'] + dump_text(*b),
        Term::ArgsTuple(args, _) => args_tuple_text(debug_list_text(dump_texts(args))),
    }
}

/// The text of each term.
pub open spec fn dump_texts<T, U>(s: Seq<Term<T, U>>) -> Seq<Seq<char>>
    decreases s,
{
    if s.len() == 0 {
        seq![]
    } else {
        dump_texts(s.drop_last()).push(dump_text(s.last()))
    }
}

/// `dump_texts` gives one text per term, in order.
pub proof fn lemma_dump_texts<T, U>(s: Seq<Term<T, U>>)
    ensures
        dump_texts(s).len() == s.len(),
        forall|i: int| 0 <= i < s.len() ==> #[trigger] dump_texts(s)[i] == dump_text(s[i]),
    decreases s.len(),
{
    if s.len() > 0 {
        lemma_dump_texts(s.drop_last());
        assert forall|i: int| 0 <= i < s.len() implies #[trigger] dump_texts(s)[i] == dump_text(s[i]) by {
            if i < s.len() - 1 {
                assert(s.drop_last()[i] == s[i]);
            }
        }
    }
}

/// Joins strings with a separator.
fn join_strings(items: &Vec<String>, sep: &str) -> (r: String)
    ensures
        r@ == join_texts(names_model(items@), sep@),
{
    let ghost texts = names_model(items@);
    let mut out = String::new();
    let n = items.len();
    let mut i: usize = 0;
    proof {
        assert(texts.take(0) =~= Seq::<Seq<char>>::empty());
    }
    while i < n
        invariant
            n == items@.len(),
            texts == names_model(items@),
            0 <= i <= n,
            out@ == join_texts(texts.take(i as int), sep@),
        decreases n - i,
    {
        if i > 0 {
            out.append(sep);
        }
        out.append(items[i].as_str());
        proof {
            assert(texts.take(i + 1).drop_last() =~= texts.take(i as int));
            assert(texts.take(i + 1).last() == items@[i as int]@);
            if i == 0 {
                assert(out@ =~= join_texts(texts.take(1), sep@));
            }
        }
        i = i + 1;
    }
    proof {
        assert(texts.take(n as int) =~= texts);
    }
    out
}

fn dump_all<T, U>(args: &Vec<Expr<T, U>>) -> (r: Vec<String>)
    ensures
        names_model(r@) == dump_texts(terms_of(args@)),
    decreases args, 0nat,
{
    proof {
        lemma_terms_of(args@);
        lemma_dump_texts(terms_of(args@));
    }
    let mut out: Vec<String> = Vec::new();
    let n = args.len();
    let mut i: usize = 0;
    while i < n
        invariant
            n == args@.len(),
            0 <= i <= n,
            out@.len() == i,
            terms_of(args@).len() == n,
            dump_texts(terms_of(args@)).len() == n,
            forall|j: int| 0 <= j < n ==> #[trigger] terms_of(args@)[j] == term_of(args@[j]),
            forall|j: int| 0 <= j < n ==> #[trigger] dump_texts(terms_of(args@))[j] == dump_text(terms_of(args@)[j]),
            forall|j: int| 0 <= j < i ==> #[trigger] out@[j]@ == dump_text(term_of(args@[j])),
        decreases n - i,
    {
        proof {
            assert(decreases_to!(args => args@[i as int]));
        }
        let s = args[i].dump_str();
        out.push(s);
        i = i + 1;
    }
    proof {
        assert(names_model(out@) =~= dump_texts(terms_of(args@)));
    }
    out
}

impl<T, U> Expr<T, U> {
    /// The text of the expression (see [`dump_text`]).
    pub fn dump_str(&self) -> (r: String)
        ensures
            r@ == dump_text(self@),
        decreases self, 1nat,
    {
        match self {
            Expr::Atom(atom, _) => atom.value.to_string(),
            Expr::LLMFunction(name, _, _) => name.clone(),
            Expr::Var(name, _) => name.clone(),
            Expr::Lambda(args, body, _) => {
                let names = debug_list(args);
                let b = (**body).dump_str();
                render_lambda(names.as_str(), b.as_str())
            },
            Expr::App(func, args, _) => {
                let args_str = match &**args {
                    Expr::ArgsTuple(items, _) => {
                        let dumped = dump_all(items);
                        let joined = join_strings(&dumped, ", ");
                        proof {
                            reveal_strlit(", ");
                            assert(", "@ =~= seq![',', ' ']);
                            assert(joined@ == join_texts(dump_texts(terms_of(items@)), seq![',', ' ']));
                        }
                        joined
                    },
                    _ => {
                        let mut s = String::new();
                        s.append("(NON_ARGS_TUPLE ");
                        let inner = (**args).dump_str();
                        s.append(inner.as_str());
                        push_char(&mut s, ')');
                        proof {
                            reveal_strlit("(NON_ARGS_TUPLE ");
                            assert(s@ =~= seq!['(', 'N', 'O', 'N', '_', 'A', 'R', 'G', 'S', '_', 'T', 'U', 'P', 'L', 'E', ' ']
                                + dump_text(term_of(**args)) + seq![')']);
                        }
                        s
                    },
                };
                let mut out = (**func).dump_str();
                push_char(&mut out, '(');
                out.append(args_str.as_str());
                push_char(&mut out, ')');
                proof {
                    reveal_strlit(", ");
                    reveal_strlit("(NON_ARGS_TUPLE ");
                    assert(out@ =~= dump_text(self@));
                }
                out
            },
            Expr::Let(name, expr, body, _) => {
                let mut out = String::new();
                out.append("Let ");
                out.append(name.as_str());
                out.append(" = ");
                let e = (**expr).dump_str();
                out.append(e.as_str());
                out.append(" in\n");
                let b = (**body).dump_str();
                out.append(b.as_str());
                proof {
                    reveal_strlit("Let ");
                    reveal_strlit(" = ");
                    reveal_strlit(" in\n");
                    assert(out@ =~= dump_text(self@));
                }
                out
            },
            Expr::ArgsTuple(args, _) => {
                let dumped = dump_all(args);
                let listed = debug_list(&dumped);
                render_args_tuple(listed.as_str())
            },
        }
    }
}

/// One line per binding, `name: text`, in the order of the bindings, separated by newlines.
pub open spec fn context_text<T, U>(s: Bindings<T, U>) -> Seq<char> {
    join_texts(s.map_values(|b: (Seq<char>, Term<T, U>)| b.0 + seq![':', ' '] + dump_text(b.1)), seq!['\n'])
}

impl<T, U> EvalEnv<T, U> {
    /// The text of the context (see [`context_text`]).
    pub fn dump_ctx(&self) -> (r: String)
        ensures
            r@ == context_text(self.context@),
    {
        let ghost lines = self.context@.map_values(|b: (Seq<char>, Term<T, U>)| b.0 + seq![':', ' '] + dump_text(b.1));
        let n = self.context.len();
        let mut parts: Vec<String> = Vec::new();
        let mut i: usize = 0;
        while i < n
            invariant
                n == self.context@.len(),
                lines == self.context@.map_values(|b: (Seq<char>, Term<T, U>)| b.0 + seq![':', ' '] + dump_text(b.1)),
                0 <= i <= n,
                parts@.len() == i,
                forall|j: int| 0 <= j < i ==> #[trigger] parts@[j]@ == lines[j],
            decreases n - i,
        {
            let (k, v) = self.context.entry(i);
            let mut line = k.clone();
            line.append(": ");
            let d = v.dump_str();
            line.append(d.as_str());
            proof {
                reveal_strlit(": ");
                assert(line@ =~= lines[i as int]);
            }
            parts.push(line);
            i = i + 1;
        }
        assert(names_model(parts@) =~= lines);
        proof {
            reveal_strlit("\n");
            assert("\n"@ =~= seq!['\n']);
        }
        join_strings(&parts, "\n")
    }
}

} // verus!
