//! Macro ("shortcode") invocations: the pending-macro record the extractor
//! produces, and the call into the external template engine that expands one.

use vstd::prelude::*;
use crate::context::ShortcodeDef;
use crate::errors::{err_view, ErrView, RenderError};
use crate::strutil::{find_char, push_char};
use crate::textpos::{byte_to_char, bytes_len, find_sub};
use crate::wiki::is_trim_ws;
use crate::templates::{context_clone, context_insert_bool, context_insert_i64, context_insert_str,
    tera_error_msg, tera_render};

verus! {

/// One argument value of a macro invocation.
pub enum ArgValue {
    Str(String),
    Bool(bool),
    Int(i64),
}

/// A pending macro invocation. `span_start .. span_end` is the byte range of
/// the placeholder that stands for the invocation in the post-extraction
/// text; the list the extractor hands out is sorted ascending by span start
/// with spans non-overlapping.
pub struct Shortcode {
    pub name: String,
    pub args: Vec<(String, ArgValue)>,
    pub body: Option<String>,
    pub span_start: usize,
    pub span_end: usize,
    pub is_md: bool,
}

/// The template name a macro expands through: `shortcodes/<name>.html` for
/// an HTML macro and `shortcodes/<name>.md` for a Markdown macro.
pub open spec fn template_name_spec(name: Seq<char>, is_md: bool) -> Seq<char> {
    "shortcodes/"@ + name + (if is_md {
        ".md"@
    } else {
        ".html"@
    })
}

pub fn shortcode_template_name(name: &str, is_md: bool) -> (r: String)
    ensures
        r@ == template_name_spec(name@, is_md),
{
    let mut t = "shortcodes/".to_owned();
    t.append(name);
    if is_md {
        t.append(".md");
    } else {
        t.append(".html");
    }
    t
}

impl Shortcode {
    /// Expands this invocation through the external template engine: the
    /// page's own context is taken as the base and the macro's arguments and
    /// body are bound over it, so an invocation's explicit bindings win over
    /// page keys of the same name. The engine decides the outcome; a failure
    /// is reported as `ShortcodeRender`.
    pub fn render(&self, tera: &tera::Tera, page_context: &tera::Context) -> (r: Result<
        String,
        RenderError,
    >)
        ensures
            r is Err ==> (r matches Err(e) && e is ShortcodeRender),
    {
        let mut ctx = context_clone(page_context);
        let mut i: usize = 0;
        while i < self.args.len()
            decreases self.args@.len() - i,
        {
            let key = self.args[i].0.as_str();
            match &self.args[i].1 {
                ArgValue::Str(v) => context_insert_str(&mut ctx, key, v.as_str()),
                ArgValue::Bool(v) => context_insert_bool(&mut ctx, key, *v),
                ArgValue::Int(v) => context_insert_i64(&mut ctx, key, *v),
            }
            i += 1;
        }
        match &self.body {
            Some(b) => context_insert_str(&mut ctx, "body", b.as_str()),
            None => (),
        }
        let tpl = shortcode_template_name(self.name.as_str(), self.is_md);
        match tera_render(tera, tpl.as_str(), &ctx) {
            Ok(s) => Ok(s),
            Err(e) => {
                let mut msg = "failed to render shortcode ".to_owned();
                msg.append(self.name.as_str());
                push_char(&mut msg, ':');
                push_char(&mut msg, ' ');
                let em = tera_error_msg(&e);
                msg.append(em.as_str());
                Err(RenderError::ShortcodeRender(msg))
            },
        }
    }
}


/// The definition table as a mathematical lookup: name to template kind.
pub open spec fn defs_view(defs: Seq<ShortcodeDef>) -> Seq<(Seq<char>, bool)> {
    defs.map(|i: int, d: ShortcodeDef| (d.name@, d.is_md))
}

pub open spec fn defs_lookup(t: Seq<(Seq<char>, bool)>, key: Seq<char>) -> Option<bool>
    decreases t.len(),
{
    if t.len() == 0 {
        Option::None
    } else if t[0].0 == key {
        Option::Some(t[0].1)
    } else {
        defs_lookup(t.subrange(1, t.len() as int), key)
    }
}

fn defs_lookup_exec(defs: &Vec<ShortcodeDef>, key: &str) -> (r: Option<bool>)
    ensures
        r == defs_lookup(defs_view(defs@), key@),
{
    let ghost tv = defs_view(defs@);
    proof {
        assert(tv.subrange(0, tv.len() as int) =~= tv);
    }
    let mut i: usize = 0;
    while i < defs.len()
        invariant
            0 <= i <= defs@.len(),
            tv == defs_view(defs@),
            tv.len() == defs@.len(),
            defs_lookup(tv, key@) == defs_lookup(tv.subrange(i as int, tv.len() as int), key@),
        decreases defs@.len() - i,
    {
        let ghost suf = tv.subrange(i as int, tv.len() as int);
        proof {
            assert(suf[0] == tv[i as int]);
        }
        if crate::strutil::str_eq(defs[i].name.as_str(), key) {
            return Some(defs[i].is_md);
        }
        proof {
            assert(suf.subrange(1, suf.len() as int) =~= tv.subrange(
                i + 1 as int,
                tv.len() as int,
            ));
        }
        i += 1;
    }
    proof {
        assert(defs_lookup(tv.subrange(tv.len() as int, tv.len() as int), key@) is None);
    }
    None
}

/// Whether the macro spans are in document order: each starts no earlier
/// than the previous one ends, and none is inverted.
pub open spec fn spans_wf(spans: Seq<(int, int)>) -> bool {
    forall|j: int|
        0 <= j < spans.len() ==> (#[trigger] spans[j]).0 <= spans[j].1 && (j + 1 < spans.len()
            ==> spans[j].1 <= spans[j + 1].0)
}

/// Characters a macro or argument identifier is made of.
pub open spec fn is_ident(c: char) -> bool {
    ('a' <= c && c <= 'z') || ('A' <= c && c <= 'Z') || ('0' <= c && c <= '9') || c == '_'
}

/// Characters an unquoted argument value is made of.
pub open spec fn is_value_char(c: char) -> bool {
    is_ident(c) || c == '-' || c == '.'
}

/// End of the whitespace run starting at `i`.
pub open spec fn ws_end(s: Seq<char>, i: int) -> int
    decreases s.len() - i,
{
    if i < 0 || i >= s.len() {
        i
    } else if is_trim_ws(s[i]) {
        ws_end(s, i + 1)
    } else {
        i
    }
}

/// End of the identifier starting at `i`.
pub open spec fn ident_end(s: Seq<char>, i: int) -> int
    decreases s.len() - i,
{
    if i < 0 || i >= s.len() {
        i
    } else if is_ident(s[i]) {
        ident_end(s, i + 1)
    } else {
        i
    }
}

/// End of the unquoted value starting at `i`.
pub open spec fn value_end(s: Seq<char>, i: int) -> int
    decreases s.len() - i,
{
    if i < 0 || i >= s.len() {
        i
    } else if is_value_char(s[i]) {
        value_end(s, i + 1)
    } else {
        i
    }
}

pub proof fn lemma_ws_end_bounds(s: Seq<char>, i: int)
    requires
        0 <= i <= s.len(),
    ensures
        i <= ws_end(s, i) <= s.len(),
    decreases s.len() - i,
{
    if i < s.len() && is_trim_ws(s[i]) {
        lemma_ws_end_bounds(s, i + 1);
    }
}

pub proof fn lemma_ident_end_bounds(s: Seq<char>, i: int)
    requires
        0 <= i <= s.len(),
    ensures
        i <= ident_end(s, i) <= s.len(),
    decreases s.len() - i,
{
    if i < s.len() && is_ident(s[i]) {
        lemma_ident_end_bounds(s, i + 1);
    }
}

pub proof fn lemma_value_end_bounds(s: Seq<char>, i: int)
    requires
        0 <= i <= s.len(),
    ensures
        i <= value_end(s, i) <= s.len(),
    decreases s.len() - i,
{
    if i < s.len() && is_value_char(s[i]) {
        lemma_value_end_bounds(s, i + 1);
    }
}

/// Whether `s[i..hi)` is a run of decimal digits whose value, accumulated
/// onto `acc`, stays within the bound the argument parser accepts.
pub open spec fn int_digits_ok(s: Seq<char>, i: int, hi: int, acc: int) -> bool
    decreases hi - i,
{
    if i >= hi {
        true
    } else {
        let u = s[i] as u32;
        if !(48 <= u && u <= 57) {
            false
        } else if acc > 922337203685477579 {
            false
        } else {
            int_digits_ok(s, i + 1, hi, acc * 10 + (u - 48))
        }
    }
}

/// Whether `s[lo..hi)` is an accepted integer literal: an optional minus
/// sign, then at least one digit, within the accepted magnitude.
pub open spec fn int_lit_ok(s: Seq<char>, lo: int, hi: int) -> bool {
    let st: int = if lo < hi && s[lo] == '-' {
        lo + 1
    } else {
        lo
    };
    st < hi && int_digits_ok(s, st, hi, 0)
}

/// Whether `s[a..e)` is an accepted unquoted argument value.
pub open spec fn word_ok(s: Seq<char>, a: int, e: int) -> bool {
    s.subrange(a, e) == "true"@ || s.subrange(a, e) == "false"@ || int_lit_ok(s, a, e)
}

/// The scan of an argument list from `i` (whitespace already skipped): the
/// index just past the closing parenthesis, or `None` when the text is not a
/// well-formed argument list.
pub open spec fn args_scan(s: Seq<char>, i: int) -> Option<int>
    decreases s.len() - i,
    via args_scan_dec
{
    if i < 0 || i >= s.len() {
        Option::None
    } else if s[i] == ')' {
        Option::Some(i + 1)
    } else {
        let k = ident_end(s, i);
        if k == i {
            Option::None
        } else {
            let j = ws_end(s, k);
            if j >= s.len() || s[j] != '=' {
                Option::None
            } else {
                let j2 = ws_end(s, j + 1);
                if j2 >= s.len() {
                    Option::None
                } else {
                    let jv: int = if s[j2] == '"' {
                        let q = find_char(s, '"', j2 + 1);
                        if q >= s.len() {
                            -1
                        } else {
                            q + 1
                        }
                    } else {
                        let e = value_end(s, j2);
                        if e == j2 || !word_ok(s, j2, e) {
                            -1
                        } else {
                            e
                        }
                    };
                    if jv < 0 {
                        Option::None
                    } else {
                        let j3 = ws_end(s, jv);
                        if j3 < s.len() && s[j3] == ',' {
                            let j4 = ws_end(s, j3 + 1);
                            if j4 <= i {
                                Option::None
                            } else {
                                args_scan(s, j4)
                            }
                        } else {
                            if j3 <= i {
                                Option::None
                            } else {
                                args_scan(s, j3)
                            }
                        }
                    }
                }
            }
        }
    }
}

#[via_fn]
proof fn args_scan_dec(s: Seq<char>, i: int) {
    if 0 <= i < s.len() && s[i] != ')' {
        let k = ident_end(s, i);
        lemma_ident_end_bounds(s, i);
        if k != i {
            lemma_ws_end_bounds(s, k);
            let j = ws_end(s, k);
            if !(j >= s.len() || s[j] != '=') {
                lemma_ws_end_bounds(s, j + 1);
                let j2 = ws_end(s, j + 1);
                if j2 < s.len() {
                    if s[j2] == '"' {
                        crate::strutil::lemma_find_char_bounds(s, '"', j2 + 1);
                    } else {
                        lemma_value_end_bounds(s, j2);
                    }
                    let jv: int = if s[j2] == '"' {
                        let q = find_char(s, '"', j2 + 1);
                        if q >= s.len() {
                            -1
                        } else {
                            q + 1
                        }
                    } else {
                        let e = value_end(s, j2);
                        if e == j2 || !word_ok(s, j2, e) {
                            -1
                        } else {
                            e
                        }
                    };
                    if jv >= 0 {
                        lemma_ws_end_bounds(s, jv);
                        let j3 = ws_end(s, jv);
                        if j3 < s.len() && s[j3] == ',' {
                            lemma_ws_end_bounds(s, j3 + 1);
                        }
                    }
                }
            }
        }
    }
}

/// `args_scan` lands strictly past its start and within the text.
pub proof fn lemma_args_scan_bounds(s: Seq<char>, i: int)
    requires
        0 <= i,
    ensures
        args_scan(s, i) matches Option::Some(p) ==> i < p <= s.len(),
    decreases s.len() - i,
{
    if 0 <= i < s.len() && s[i] != ')' {
        let k = ident_end(s, i);
        lemma_ident_end_bounds(s, i);
        if k != i {
            lemma_ws_end_bounds(s, k);
            let j = ws_end(s, k);
            if !(j >= s.len() || s[j] != '=') {
                lemma_ws_end_bounds(s, j + 1);
                let j2 = ws_end(s, j + 1);
                if j2 < s.len() {
                    if s[j2] == '"' {
                        crate::strutil::lemma_find_char_bounds(s, '"', j2 + 1);
                    } else {
                        lemma_value_end_bounds(s, j2);
                    }
                    let jv: int = if s[j2] == '"' {
                        let q = find_char(s, '"', j2 + 1);
                        if q >= s.len() {
                            -1
                        } else {
                            q + 1
                        }
                    } else {
                        let e = value_end(s, j2);
                        if e == j2 || !word_ok(s, j2, e) {
                            -1
                        } else {
                            e
                        }
                    };
                    if jv >= 0 {
                        lemma_ws_end_bounds(s, jv);
                        let j3 = ws_end(s, jv);
                        if j3 < s.len() && s[j3] == ',' {
                            lemma_ws_end_bounds(s, j3 + 1);
                            let j4 = ws_end(s, j3 + 1);
                            if j4 > i {
                                lemma_args_scan_bounds(s, j4);
                            }
                        } else {
                            if j3 > i {
                                lemma_args_scan_bounds(s, j3);
                            }
                        }
                    }
                }
            }
        }
    }
}

pub open spec fn opt_str_view(o: Option<String>) -> Option<Seq<char>> {
    match o {
        Option::Some(b) => Option::Some(b@),
        Option::None => Option::None,
    }
}

/// What the invocation parser decides at position `i` (which holds the
/// opening delimiter): not a well-formed invocation, a well-formed invocation
/// of an unknown macro, or a found invocation with its name, body and the
/// index just past it.
#[verifier::ext_equal]
pub enum InvSpec {
    NotInvocation,
    Unknown(Seq<char>),
    Found { name: Seq<char>, body: Option<Seq<char>>, end: int, is_md: bool },
}

pub open spec fn invocation_spec(
    s: Seq<char>,
    i: int,
    block: bool,
    defs: Seq<(Seq<char>, bool)>,
) -> InvSpec {
    let j = ws_end(s, i + 2);
    let k = ident_end(s, j);
    if k == j {
        InvSpec::NotInvocation
    } else {
        let name = s.subrange(j, k);
        let p0 = ws_end(s, k);
        let has_args = p0 < s.len() && s[p0] == '(';
        let pargs: Option<int> = if has_args {
            args_scan(s, ws_end(s, p0 + 1))
        } else {
            Option::Some(p0)
        };
        match pargs {
            Option::None => InvSpec::NotInvocation,
            Option::Some(pr) => {
                let p = if has_args {
                    ws_end(s, pr)
                } else {
                    p0
                };
                if s.len() - p < 2 {
                    InvSpec::NotInvocation
                } else {
                    let closed = if block {
                        s[p] == '%' && s[p + 1] == '}'
                    } else {
                        s[p] == '}' && s[p + 1] == '}'
                    };
                    if !closed {
                        InvSpec::NotInvocation
                    } else {
                        let end0 = p + 2;
                        match defs_lookup(defs, name) {
                            Option::None => InvSpec::Unknown(name),
                            Option::Some(is_md) => {
                                if !block {
                                    InvSpec::Found { name, body: Option::None, end: end0, is_md }
                                } else {
                                    let t = find_sub(s, "{% end %}"@, end0);
                                    if !("{% end %}"@.len() <= s.len() - t) {
                                        InvSpec::NotInvocation
                                    } else {
                                        InvSpec::Found {
                                            name,
                                            body: Option::Some(s.subrange(end0, t)),
                                            end: t + "{% end %}"@.len(),
                                            is_md,
                                        }
                                    }
                                }
                            },
                        }
                    }
                }
            },
        }
    }
}

/// A found invocation lies strictly past its opening delimiter and within
/// the text.
pub proof fn lemma_invocation_bounds(s: Seq<char>, i: int, block: bool, defs: Seq<(Seq<char>, bool)>)
    requires
        0 <= i,
        i + 2 <= s.len(),
    ensures
        invocation_spec(s, i, block, defs) matches InvSpec::Found { name, body, end, is_md } ==> i
            < end <= s.len(),
{
    lemma_ws_end_bounds(s, i + 2);
    let j = ws_end(s, i + 2);
    lemma_ident_end_bounds(s, j);
    let k = ident_end(s, j);
    if k != j {
        lemma_ws_end_bounds(s, k);
        let p0 = ws_end(s, k);
        let has_args = p0 < s.len() && s[p0] == '(';
        if has_args {
            lemma_ws_end_bounds(s, p0 + 1);
            lemma_args_scan_bounds(s, ws_end(s, p0 + 1));
            let pargs = args_scan(s, ws_end(s, p0 + 1));
            if pargs is Some {
                lemma_ws_end_bounds(s, pargs->0);
            }
        }
        let pr: int = if has_args {
            match args_scan(s, ws_end(s, p0 + 1)) {
                Option::Some(x) => x,
                Option::None => p0,
            }
        } else {
            p0
        };
        let p = if has_args {
            ws_end(s, pr)
        } else {
            p0
        };
        if s.len() - p >= 2 {
            crate::textpos::lemma_find_sub_bounds(s, "{% end %}"@, p + 2);
        }
    }
}

fn is_ident_char(c: char) -> (r: bool)
    ensures
        r == is_ident(c),
{
    let u = c as u32;
    (97 <= u && u <= 122) || (65 <= u && u <= 90) || (48 <= u && u <= 57) || c == '_'
}

fn is_ws_char(c: char) -> (r: bool)
    ensures
        r == is_trim_ws(c),
{
    c == ' ' || c == '\t' || c == '\n' || c == '\r'
}

fn is_value_char_exec(c: char) -> (r: bool)
    ensures
        r == is_value_char(c),
{
    is_ident_char(c) || c == '-' || c == '.'
}

fn skip_ws(s: &str, i: usize) -> (r: usize)
    requires
        i <= s@.len(),
    ensures
        i <= r <= s@.len(),
        r as int == ws_end(s@, i as int),
    decreases s@.len() - i,
{
    let n = s.unicode_len();
    if i >= n {
        return i;
    }
    if is_ws_char(s.get_char(i)) {
        skip_ws(s, i + 1)
    } else {
        i
    }
}

fn scan_ident(s: &str, i: usize) -> (r: usize)
    requires
        i <= s@.len(),
    ensures
        i <= r <= s@.len(),
        r as int == ident_end(s@, i as int),
    decreases s@.len() - i,
{
    let n = s.unicode_len();
    if i >= n {
        return i;
    }
    if is_ident_char(s.get_char(i)) {
        scan_ident(s, i + 1)
    } else {
        i
    }
}

/// Parses the argument list from `i` (whitespace already skipped); returns
/// the collected arguments and the index just past the closing parenthesis,
/// or `None` when the text is not a well-formed argument list — exactly as
/// `args_scan` decides.
fn parse_args_scan(s: &str, i: usize, args: Vec<(String, ArgValue)>) -> (r: Option<
    (Vec<(String, ArgValue)>, usize),
>)
    requires
        i <= s@.len(),
    ensures
        (r is Some) == (args_scan(s@, i as int) is Some),
        r matches Some(p) ==> Option::Some(p.1 as int) == args_scan(s@, i as int) && i <= p.1
            <= s@.len(),
    decreases s@.len() - i,
{
    let n = s.unicode_len();
    if i >= n {
        return None;
    }
    if s.get_char(i) == ')' {
        return Some((args, i + 1));
    }
    let k = scan_ident(s, i);
    if k == i {
        return None;
    }
    let key = s.substring_char(i, k).to_owned();
    let j = skip_ws(s, k);
    if j >= n || s.get_char(j) != '=' {
        return None;
    }
    let j2 = skip_ws(s, j + 1);
    if j2 >= n {
        return None;
    }
    let c = s.get_char(j2);
    let val: ArgValue;
    let jv: usize;
    if c == '"' {
        let q = crate::strutil::find_char_from(s, '"', j2 + 1);
        if q >= n {
            return None;
        }
        val = ArgValue::Str(s.substring_char(j2 + 1, q).to_owned());
        jv = q + 1;
    } else {
        let e = scan_value_end(s, j2);
        if e == j2 {
            return None;
        }
        let word = s.substring_char(j2, e);
        if crate::strutil::str_eq(word, "true") {
            val = ArgValue::Bool(true);
        } else if crate::strutil::str_eq(word, "false") {
            val = ArgValue::Bool(false);
        } else {
            match parse_int(s, j2, e) {
                Some(v) => {
                    val = ArgValue::Int(v);
                },
                None => {
                    return None;
                },
            }
        }
        jv = e;
    }
    let mut args = args;
    args.push((key, val));
    let j3 = skip_ws(s, jv);
    if j3 < n && s.get_char(j3) == ',' {
        let j4 = skip_ws(s, j3 + 1);
        if j4 <= i {
            return None;
        }
        parse_args_scan(s, j4, args)
    } else {
        if j3 <= i {
            return None;
        }
        parse_args_scan(s, j3, args)
    }
}

fn scan_value_end(s: &str, i: usize) -> (r: usize)
    requires
        i <= s@.len(),
    ensures
        i <= r <= s@.len(),
        r as int == value_end(s@, i as int),
    decreases s@.len() - i,
{
    let n = s.unicode_len();
    if i >= n {
        return i;
    }
    let c = s.get_char(i);
    if is_value_char_exec(c) {
        scan_value_end(s, i + 1)
    } else {
        i
    }
}

fn parse_int(s: &str, lo: usize, hi: usize) -> (r: Option<i64>)
    requires
        lo <= hi <= s@.len(),
    ensures
        (r is Some) == int_lit_ok(s@, lo as int, hi as int),
{
    let mut i = lo;
    let neg = if lo < hi && s.get_char(lo) == '-' {
        i = lo + 1;
        true
    } else {
        false
    };
    let ghost st = i as int;
    if i >= hi {
        return None;
    }
    let mut acc: i64 = 0;
    while i < hi
        invariant
            lo <= st <= i <= hi <= s@.len(),
            st < hi,
            st == (if (lo as int) < hi && s@[lo as int] == '-' {
                lo + 1 as int
            } else {
                lo as int
            }),
            0 <= acc,
            int_digits_ok(s@, st, hi as int, 0) == int_digits_ok(s@, i as int, hi as int, acc as int),
        decreases hi - i,
    {
        let u = s.get_char(i) as u32;
        if !(48 <= u && u <= 57) {
            return None;
        }
        if acc > 922337203685477580i64 - 1 {
            return None;
        }
        acc = acc * 10 + ((u - 48) as i64);
        i += 1;
    }
    if neg {
        Some(-acc)
    } else {
        Some(acc)
    }
}

/// One parsed invocation: name, arguments, body, index just past it, and
/// the macro's template kind.
struct Invocation {
    name: String,
    args: Vec<(String, ArgValue)>,
    body: Option<String>,
    end: usize,
    is_md: bool,
}

/// Tries to parse a macro invocation starting at `i` (which holds `{{` or
/// `{%`) — exactly as `invocation_spec` decides. `None` means the text is
/// not a well-formed invocation and stays literal; an unknown macro name
/// fails the whole extraction.
fn parse_invocation(s: &str, i: usize, block: bool, defs: &Vec<ShortcodeDef>) -> (r: Result<
    Option<Invocation>,
    RenderError,
>)
    requires
        i + 2 <= s@.len(),
    ensures
        ({
            let iv = invocation_spec(s@, i as int, block, defs_view(defs@));
            match r {
                Ok(o) => match o {
                    Some(inv) => iv == (InvSpec::Found {
                        name: inv.name@,
                        body: opt_str_view(inv.body),
                        end: inv.end as int,
                        is_md: inv.is_md,
                    }),
                    None => iv is NotInvocation,
                },
                Err(e) => (e matches RenderError::UndefinedShortcode(nm) && iv
                    == InvSpec::Unknown(nm@)),
            }
        }),
        r matches Ok(Some(inv)) ==> i < inv.end <= s@.len() && defs_lookup(
            defs_view(defs@),
            inv.name@,
        ) == Some(inv.is_md),
        r matches Err(e) ==> (e matches RenderError::UndefinedShortcode(nm) && defs_lookup(
            defs_view(defs@),
            nm@,
        ) is None),
{
    let n = s.unicode_len();
    let j = skip_ws(s, i + 2);
    let k = scan_ident(s, j);
    if k == j {
        return Ok(None);
    }
    let name = s.substring_char(j, k).to_owned();
    let mut p = skip_ws(s, k);
    let args: Vec<(String, ArgValue)>;
    if p < n && s.get_char(p) == '(' {
        let i0 = skip_ws(s, p + 1);
        match parse_args_scan(s, i0, Vec::new()) {
            Some((a, p2)) => {
                args = a;
                p = skip_ws(s, p2);
            },
            None => {
                return Ok(None);
            },
        }
    } else {
        args = Vec::new();
    }
    // closing delimiter
    if n - p < 2 {
        return Ok(None);
    }
    let c1 = s.get_char(p);
    let c2 = s.get_char(p + 1);
    let closed = if block {
        c1 == '%' && c2 == '}'
    } else {
        c1 == '}' && c2 == '}'
    };
    if !closed {
        return Ok(None);
    }
    let end = p + 2;
    let is_md = match defs_lookup_exec(defs, name.as_str()) {
        Some(m) => m,
        None => {
            return Err(RenderError::UndefinedShortcode(name));
        },
    };
    if !block {
        return Ok(Some(Invocation { name, args, body: None, end, is_md }));
    }
    // block form: the body runs to the end marker
    let t = crate::textpos::find_sub_from(s, "{% end %}", end);
    let mlen = "{% end %}".unicode_len();
    if !(mlen <= n - t) {
        return Ok(None);
    }
    let body = s.substring_char(end, t).to_owned();
    let total = t + mlen;
    Ok(Some(Invocation { name, args, body: Some(body), end: total, is_md }))
}

/// Mathematical record of one pending macro: name, body, the byte span of
/// its placeholder in the output text, and the template kind.
#[verifier::ext_equal]
pub struct ScRec {
    pub name: Seq<char>,
    pub body: Option<Seq<char>>,
    pub start: int,
    pub end: int,
    pub is_md: bool,
}

pub open spec fn sc_recs_view(v: Seq<Shortcode>) -> Seq<ScRec> {
    v.map(
        |q: int, sc: Shortcode|
            ScRec {
                name: sc.name@,
                body: opt_str_view(sc.body),
                start: sc.span_start as int,
                end: sc.span_end as int,
                is_md: sc.is_md,
            },
    )
}

pub open spec fn rec_spans(recs: Seq<ScRec>) -> Seq<(int, int)> {
    recs.map(|q: int, rc: ScRec| (rc.start, rc.end))
}

/// The extraction itself, from position `i` with output `out`, records
/// `recs` and the last recorded span end `last` accumulated so far: every
/// well-formed invocation of a known macro is replaced by the placeholder
/// and recorded at its byte span in the output; all other text is copied
/// unchanged; a well-formed invocation of an unknown macro fails with its
/// name.
pub open spec fn extract_spec(
    s: Seq<char>,
    defs: Seq<(Seq<char>, bool)>,
    i: int,
    out: Seq<char>,
    recs: Seq<ScRec>,
    last: int,
) -> Result<(Seq<char>, Seq<ScRec>), Seq<char>>
    decreases s.len() - i,
    via extract_spec_dec
{
    if !(0 <= i < s.len()) {
        Result::Ok((out, recs))
    } else {
        let c = s[i];
        let opener = c == '{' && i + 1 < s.len() && (s[i + 1] == '{' || s[i + 1] == '%');
        if !opener {
            extract_spec(s, defs, i + 1, out.push(c), recs, last)
        } else {
            let block = s[i + 1] == '%';
            match invocation_spec(s, i, block, defs) {
                InvSpec::Unknown(nm) => Result::Err(nm),
                InvSpec::NotInvocation => extract_spec(s, defs, i + 1, out.push(c), recs, last),
                InvSpec::Found { name, body, end, is_md } => {
                    let sb = (bytes_len(out) as usize) as int;
                    let out2 = out + "@@SHORTCODE@@"@;
                    let eb = (bytes_len(out2) as usize) as int;
                    let ok = last <= sb && sb <= eb;
                    let recs2 = if ok {
                        recs.push(ScRec { name, body, start: sb, end: eb, is_md })
                    } else {
                        recs
                    };
                    let last2 = if ok {
                        eb
                    } else {
                        last
                    };
                    extract_spec(s, defs, end, out2, recs2, last2)
                },
            }
        }
    }
}

#[via_fn]
proof fn extract_spec_dec(
    s: Seq<char>,
    defs: Seq<(Seq<char>, bool)>,
    i: int,
    out: Seq<char>,
    recs: Seq<ScRec>,
    last: int,
) {
    if 0 <= i < s.len() {
        let opener = s[i] == '{' && i + 1 < s.len() && (s[i + 1] == '{' || s[i + 1] == '%');
        if opener {
            lemma_invocation_bounds(s, i, s[i + 1] == '%', defs);
        }
    }
}

/// Scans the source for macro invocations. Each well-formed invocation of a
/// known macro is removed and replaced by the placeholder text, and recorded
/// with its byte span in the output text; an invocation of an unknown macro
/// fails with `UndefinedShortcode`; text that merely resembles an invocation
/// stays literal. The returned spans are in document order, non-overlapping.
pub fn extract_shortcodes(content: &str, definitions: &Vec<ShortcodeDef>) -> (r: Result<
    (String, Vec<Shortcode>),
    RenderError,
>)
    ensures
        ({
            let ex = extract_spec(
                content@,
                defs_view(definitions@),
                0,
                Seq::empty(),
                Seq::empty(),
                0,
            );
            match r {
                Ok(p) => (ex matches Ok(q) && p.0@ == q.0 && sc_recs_view(p.1@) == q.1),
                Err(e) => (e matches RenderError::UndefinedShortcode(nm) && ex == Result::<
                    (Seq<char>, Seq<ScRec>),
                    Seq<char>,
                >::Err(nm@)),
            }
        }),
        r matches Ok(p) ==> spans_wf(
            p.1@.map(|q: int, sc: Shortcode| (sc.span_start as int, sc.span_end as int)),
        ) && (forall|j: int|
            0 <= j < p.1@.len() ==> defs_lookup(
                defs_view(definitions@),
                (#[trigger] p.1@[j]).name@,
            ) == Some(p.1@[j].is_md)),
        r matches Err(e) ==> (e matches RenderError::UndefinedShortcode(nm) && defs_lookup(
            defs_view(definitions@),
            nm@,
        ) is None),
{
    let ghost dv = defs_view(definitions@);
    let n = content.unicode_len();
    let mut out = String::new();
    let mut scs: Vec<Shortcode> = Vec::new();
    let mut last_end: usize = 0;
    let mut i: usize = 0;
    proof {
        assert(sc_recs_view(scs@) =~= Seq::<ScRec>::empty());
    }
    while i < n
        invariant
            0 <= i <= n == content@.len(),
            dv == defs_view(definitions@),
            extract_spec(content@, dv, 0, Seq::empty(), Seq::empty(), 0) == extract_spec(
                content@,
                dv,
                i as int,
                out@,
                sc_recs_view(scs@),
                last_end as int,
            ),
            forall|j: int|
                0 <= j < scs@.len() ==> defs_lookup(
                    defs_view(definitions@),
                    (#[trigger] scs@[j]).name@,
                ) == Some(scs@[j].is_md),
            forall|j: int|
                0 <= j < scs@.len() ==> (#[trigger] scs@[j]).span_start <= scs@[j].span_end
                    && scs@[j].span_end <= last_end && (j + 1 < scs@.len() ==> scs@[j].span_end
                    <= scs@[j + 1].span_start),
        decreases n - i,
    {
        let c = content.get_char(i);
        let opener = c == '{' && i + 1 < n && (content.get_char(i + 1) == '{' || content.get_char(
            i + 1,
        ) == '%');
        if opener {
            let block = content.get_char(i + 1) == '%';
            match parse_invocation(content, i, block, definitions) {
                Err(e) => {
                    return Err(e);
                },
                Ok(None) => {
                    push_char(&mut out, c);
                    i += 1;
                },
                Ok(Some(inv)) => {
                    let ghost out0 = out@;
                    let ghost recs0 = sc_recs_view(scs@);
                    let start_b = out.as_str().len();
                    out.append("@@SHORTCODE@@");
                    let end_b = out.as_str().len();
                    proof {
                        assert(out@ == out0 + "@@SHORTCODE@@"@);
                        assert(start_b as int == (bytes_len(out0) as usize) as int);
                        assert(end_b as int == (bytes_len(out0 + "@@SHORTCODE@@"@) as usize) as int);
                    }
                    if last_end <= start_b && start_b <= end_b {
                        scs.push(
                            Shortcode {
                                name: inv.name,
                                args: inv.args,
                                body: inv.body,
                                span_start: start_b,
                                span_end: end_b,
                                is_md: inv.is_md,
                            },
                        );
                        proof {
                            assert(sc_recs_view(scs@) =~= recs0.push(
                                ScRec {
                                    name: scs@[scs@.len() - 1].name@,
                                    body: opt_str_view(scs@[scs@.len() - 1].body),
                                    start: start_b as int,
                                    end: end_b as int,
                                    is_md: scs@[scs@.len() - 1].is_md,
                                },
                            ));
                        }
                        last_end = end_b;
                    }
                    i = inv.end;
                },
            }
        } else {
            push_char(&mut out, c);
            i += 1;
        }
    }
    proof {
        let spans = scs@.map(|q: int, sc: Shortcode| (sc.span_start as int, sc.span_end as int));
        assert forall|j: int|
            0 <= j < spans.len() implies (#[trigger] spans[j]).0 <= spans[j].1 && (j + 1
            < spans.len() ==> spans[j].1 <= spans[j + 1].0) by {
            assert(spans[j] == (scs@[j].span_start as int, scs@[j].span_end as int));
            if j + 1 < spans.len() {
                assert(spans[j + 1] == (
                    scs@[j + 1].span_start as int,
                    scs@[j + 1].span_end as int,
                ));
            }
        }
    }
    Ok((out, scs))
}

/// The views of the pre-rendered Markdown-macro expansions.
pub open spec fn mouts_view(v: Seq<Result<String, RenderError>>) -> Seq<
    Result<Seq<char>, ErrView>,
> {
    v.map(
        |q: int, r: Result<String, RenderError>|
            match r {
                Result::Ok(x) => Result::<Seq<char>, ErrView>::Ok(x@),
                Result::Err(e) => Result::<Seq<char>, ErrView>::Err(err_view(e)),
            },
    )
}

/// How many of the first `i` records are Markdown-typed.
pub open spec fn md_count_upto(recs: Seq<ScRec>, i: int) -> int
    decreases i,
{
    if i <= 0 {
        0
    } else {
        md_count_upto(recs, i - 1) + (if 0 <= i - 1 < recs.len() && recs[i - 1].is_md {
            1int
        } else {
            0int
        })
    }
}

pub proof fn lemma_md_count_nonneg(recs: Seq<ScRec>, a: int)
    requires
        0 <= a,
    ensures
        0 <= md_count_upto(recs, a),
    decreases a,
{
    if a > 0 {
        lemma_md_count_nonneg(recs, a - 1);
    }
}

pub proof fn lemma_md_count_mono(recs: Seq<ScRec>, a: int, b: int)
    requires
        0 <= a <= b,
    ensures
        md_count_upto(recs, a) <= md_count_upto(recs, b),
        0 <= md_count_upto(recs, a),
    decreases b - a,
{
    lemma_md_count_nonneg(recs, a);
    if a < b {
        lemma_md_count_mono(recs, a, b - 1);
    }
}

/// The expansion pass from record `k` on: the text between the cursor and a
/// record's span is copied; a Markdown-typed record's span is replaced by
/// its pre-rendered expansion `mouts[mk]` (a failed expansion ends the pass
/// with that error); an HTML-typed record is re-recorded at the byte span of
/// a fresh placeholder in the output; a record whose span does not lie on
/// character boundaries at or past the cursor is dropped and its text left
/// as it stands.
pub open spec fn insert_md_spec(
    s: Seq<char>,
    recs: Seq<ScRec>,
    mouts: Seq<Result<Seq<char>, ErrView>>,
    k: int,
    mk: int,
    cur_b: int,
    cur_c: int,
    out: Seq<char>,
    hrecs: Seq<ScRec>,
    last: int,
) -> Result<(Seq<char>, Seq<ScRec>), ErrView>
    decreases recs.len() - k,
{
    if !(0 <= k < recs.len()) {
        Result::Ok((out + s.subrange(cur_c, s.len() as int), hrecs))
    } else {
        let rc = recs[k];
        let skip_mk: int = mk + (if rc.is_md {
            1int
        } else {
            0int
        });
        if rc.start < cur_b {
            insert_md_spec(s, recs, mouts, k + 1, skip_mk, cur_b, cur_c, out, hrecs, last)
        } else {
            match (byte_to_char(s, rc.start), byte_to_char(s, rc.end)) {
                (Option::Some(a), Option::Some(b)) => {
                    if cur_c <= a && a <= b && b <= s.len() {
                        let out2 = out + s.subrange(cur_c, a);
                        if rc.is_md {
                            let x = if 0 <= mk < mouts.len() {
                                mouts[mk]
                            } else {
                                Result::Ok(Seq::empty())
                            };
                            match x {
                                Result::Err(m) => Result::Err(m),
                                Result::Ok(xp) => insert_md_spec(
                                    s,
                                    recs,
                                    mouts,
                                    k + 1,
                                    mk + 1,
                                    rc.end,
                                    b,
                                    out2 + xp,
                                    hrecs,
                                    last,
                                ),
                            }
                        } else {
                            let sb = (bytes_len(out2) as usize) as int;
                            let out3 = out2 + "@@SHORTCODE@@"@;
                            let eb = (bytes_len(out3) as usize) as int;
                            let ok = last <= sb && sb <= eb;
                            let hrecs2 = if ok {
                                hrecs.push(
                                    ScRec {
                                        name: rc.name,
                                        body: rc.body,
                                        start: sb,
                                        end: eb,
                                        is_md: false,
                                    },
                                )
                            } else {
                                hrecs
                            };
                            let last2 = if ok {
                                eb
                            } else {
                                last
                            };
                            insert_md_spec(s, recs, mouts, k + 1, mk, rc.end, b, out3, hrecs2, last2)
                        }
                    } else {
                        insert_md_spec(s, recs, mouts, k + 1, skip_mk, cur_b, cur_c, out, hrecs, last)
                    }
                },
                _ => insert_md_spec(s, recs, mouts, k + 1, skip_mk, cur_b, cur_c, out, hrecs, last),
            }
        }
    }
}

/// Expands the Markdown-typed macros into the text itself (shifting the
/// later spans), and hands back the HTML-typed ones for the event pipeline.
/// Every Markdown-typed macro is expanded up front; the result equals
/// `insert_md_spec` applied to those expansion outcomes, so with none of
/// them the identity rewrite (with the HTML macros re-recorded) is owed.
#[verifier::rlimit(100)]
pub fn insert_md_shortcodes(
    content: String,
    shortcodes: Vec<Shortcode>,
    tera: &tera::Tera,
    page_context: &tera::Context,
) -> (r: Result<(String, Vec<Shortcode>), RenderError>)
    ensures
        exists|mouts: Seq<Result<Seq<char>, ErrView>>|
            mouts.len() == md_count_upto(sc_recs_view(shortcodes@), shortcodes@.len() as int) && (
            forall|q: int|
                0 <= q < mouts.len() ==> ((#[trigger] mouts[q]) is Err ==> mouts[q]->Err_0
                    is ShortcodeRender)) && #[trigger] insert_md_matches(
                r,
                content@,
                sc_recs_view(shortcodes@),
                mouts,
            ),
        r matches Ok(p) ==> spans_wf(
            p.1@.map(|q: int, sc: Shortcode| (sc.span_start as int, sc.span_end as int)),
        ) && (forall|j: int| 0 <= j < p.1@.len() ==> !(#[trigger] p.1@[j]).is_md),
        r matches Err(e) ==> (e is ShortcodeRender),
{
    let ghost full = sc_recs_view(shortcodes@);
    // expand every Markdown-typed macro up front, in document order
    let mut mouts: Vec<Result<String, RenderError>> = Vec::new();
    let mut t: usize = 0;
    proof {
        assert(mouts_view(mouts@) =~= Seq::<Result<Seq<char>, ErrView>>::empty());
    }
    while t < shortcodes.len()
        invariant
            0 <= t <= shortcodes@.len(),
            full == sc_recs_view(shortcodes@),
            full.len() == shortcodes@.len(),
            mouts@.len() as int == md_count_upto(full, t as int),
            mouts_view(mouts@).len() == mouts@.len(),
            forall|q: int|
                0 <= q < mouts@.len() ==> ((#[trigger] mouts_view(mouts@)[q]) is Err ==> mouts_view(
                    mouts@,
                )[q]->Err_0 is ShortcodeRender),
        decreases shortcodes@.len() - t,
    {
        proof {
            assert(full[t as int] == sc_recs_view(shortcodes@)[t as int]);
        }
        if shortcodes[t].is_md {
            let ghost m0 = mouts_view(mouts@);
            let rr = shortcodes[t].render(tera, page_context);
            proof {
                if rr is Err {
                    assert(err_view(rr->Err_0) is ShortcodeRender);
                }
            }
            mouts.push(rr);
            proof {
                assert(mouts_view(mouts@) =~= m0.push(
                    match mouts@[mouts@.len() - 1] {
                        Result::Ok(x) => Result::<Seq<char>, ErrView>::Ok(x@),
                        Result::Err(e) => Result::<Seq<char>, ErrView>::Err(err_view(e)),
                    },
                ));
            }
        }
        t += 1;
    }
    let ghost mv = mouts_view(mouts@);
    let cn = content.as_str().unicode_len();
    let mut out = String::new();
    let mut html_scs: Vec<Shortcode> = Vec::new();
    let mut rem = shortcodes;
    let mut mk: usize = 0;
    let mut cur: usize = 0;  // byte position in `content` consumed so far
    let mut cur_c: usize = 0;  // the same position in characters
    let mut last_end: usize = 0;
    proof {
        assert(sc_recs_view(rem@) =~= full.subrange(full.len() - rem@.len(), full.len() as int));
        assert(sc_recs_view(html_scs@) =~= Seq::<ScRec>::empty());
        lemma_md_count_mono(full, 0, full.len() as int);
    }
    while rem.len() > 0
        invariant
            cur_c <= content@.len(),
            cn == content@.len(),
            full == sc_recs_view(shortcodes@),
            mv == mouts_view(mouts@),
            mv.len() as int == md_count_upto(full, full.len() as int),
            rem@.len() <= full.len(),
            sc_recs_view(rem@) == full.subrange(full.len() - rem@.len(), full.len() as int),
            mk as int == md_count_upto(full, full.len() - rem@.len()),
            forall|q: int|
                0 <= q < mv.len() ==> ((#[trigger] mv[q]) is Err ==> mv[q]->Err_0
                    is ShortcodeRender),
            insert_md_spec(content@, full, mv, 0, 0, 0, 0, Seq::empty(), Seq::empty(), 0)
                == insert_md_spec(
                content@,
                full,
                mv,
                full.len() - rem@.len(),
                mk as int,
                cur as int,
                cur_c as int,
                out@,
                sc_recs_view(html_scs@),
                last_end as int,
            ),
            forall|j: int|
                0 <= j < html_scs@.len() ==> (#[trigger] html_scs@[j]).span_start
                    <= html_scs@[j].span_end && html_scs@[j].span_end <= last_end && (j + 1
                    < html_scs@.len() ==> html_scs@[j].span_end <= html_scs@[j + 1].span_start)
                    && !html_scs@[j].is_md,
        decreases rem@.len(),
    {
        let ghost k = full.len() - rem@.len();
        let ghost rv = sc_recs_view(rem@);
        proof {
            assert(rv[0] == full[k]);
            lemma_md_count_mono(full, k + 1, full.len() as int);
        }
        let sc = rem.remove(0);
        proof {
            assert(sc_recs_view(rem@) =~= rv.subrange(1, rv.len() as int));
            assert(sc_recs_view(rem@) =~= full.subrange(
                full.len() - rem@.len(),
                full.len() as int,
            ));
            assert(md_count_upto(full, k + 1) == md_count_upto(full, k) + (if full[k].is_md {
                1int
            } else {
                0int
            }));
        }
        let mut handled = false;
        if sc.span_start >= cur {
            let a_opt = crate::textpos::byte_to_char_idx(content.as_str(), sc.span_start);
            let b_opt = crate::textpos::byte_to_char_idx(content.as_str(), sc.span_end);
            match (a_opt, b_opt) {
                (Some(a), Some(b)) => {
                    if cur_c <= a && a <= b && b <= cn {
                        handled = true;
                        let ghost out0 = out@;
                        let piece = content.as_str().substring_char(cur_c, a);
                        out.append(piece);
                        proof {
                            assert(out@ =~= out0 + content@.subrange(cur_c as int, a as int));
                            assert(full[k].start == sc.span_start as int);
                            assert(full[k].end == sc.span_end as int);
                            assert(full[k].is_md == sc.is_md);
                        }
                        if sc.is_md {
                            proof {
                                assert((mk as int) < mv.len());
                                assert(mv[mk as int] == mouts_view(mouts@)[mk as int]);
                            }
                            match &mouts[mk] {
                                Ok(expanded) => {
                                    let ghost out2 = out@;
                                    out.append(expanded.as_str());
                                    proof {
                                        assert(out@ =~= out2 + mv[mk as int]->Ok_0);
                                    }
                                },
                                Err(e) => {
                                    let e2 = crate::errors::clone_render_error(e);
                                    proof {
                                        assert(err_view(e2) == mv[mk as int]->Err_0);
                                        assert(err_view(e2) is ShortcodeRender);
                                        assert(e2 is ShortcodeRender);
                                        assert(insert_md_matches(
                                            Result::<(String, Vec<Shortcode>), RenderError>::Err(
                                                e2,
                                            ),
                                            content@,
                                            full,
                                            mv,
                                        ));
                                    }
                                    return Err(e2);
                                },
                            }
                            mk += 1;
                        } else {
                            let ghost out2 = out@;
                            let ghost hrecs0 = sc_recs_view(html_scs@);
                            let start_b = out.as_str().len();
                            out.append("@@SHORTCODE@@");
                            let end_b = out.as_str().len();
                            proof {
                                assert(out@ == out2 + "@@SHORTCODE@@"@);
                                assert(start_b as int == (bytes_len(out2) as usize) as int);
                                assert(end_b as int == (bytes_len(out2 + "@@SHORTCODE@@"@)
                                    as usize) as int);
                            }
                            if last_end <= start_b && start_b <= end_b {
                                html_scs.push(
                                    Shortcode {
                                        name: sc.name,
                                        args: sc.args,
                                        body: sc.body,
                                        span_start: start_b,
                                        span_end: end_b,
                                        is_md: false,
                                    },
                                );
                                proof {
                                    assert(sc_recs_view(html_scs@) =~= hrecs0.push(
                                        ScRec {
                                            name: full[k].name,
                                            body: full[k].body,
                                            start: start_b as int,
                                            end: end_b as int,
                                            is_md: false,
                                        },
                                    ));
                                }
                                last_end = end_b;
                            }
                        }
                        cur = sc.span_end;
                        cur_c = b;
                    }
                },
                _ => {},
            }
        }
        if !handled && sc.is_md {
            mk += 1;
        }
    }
    let ghost outv = out@;
    let piece = content.as_str().substring_char(cur_c, cn);
    out.append(piece);
    proof {
        assert(out@ =~= outv + content@.subrange(cur_c as int, content@.len() as int));
        assert(insert_md_matches(
            Result::<(String, Vec<Shortcode>), RenderError>::Ok((out, html_scs)),
            content@,
            full,
            mv,
        ));
        let spans = html_scs@.map(
            |q: int, sc: Shortcode| (sc.span_start as int, sc.span_end as int),
        );
        assert forall|j: int|
            0 <= j < spans.len() implies (#[trigger] spans[j]).0 <= spans[j].1 && (j + 1
            < spans.len() ==> spans[j].1 <= spans[j + 1].0) by {
            assert(spans[j] == (html_scs@[j].span_start as int, html_scs@[j].span_end as int));
            if j + 1 < spans.len() {
                assert(spans[j + 1] == (
                    html_scs@[j + 1].span_start as int,
                    html_scs@[j + 1].span_end as int,
                ));
            }
        }
    }
    Ok((out, html_scs))
}

/// Whether `r` is what `insert_md_spec` yields for these expansion outcomes.
pub open spec fn insert_md_matches(
    r: Result<(String, Vec<Shortcode>), RenderError>,
    content: Seq<char>,
    recs: Seq<ScRec>,
    mouts: Seq<Result<Seq<char>, ErrView>>,
) -> bool {
    let ins = insert_md_spec(content, recs, mouts, 0, 0, 0, 0, Seq::empty(), Seq::empty(), 0);
    match r {
        Result::Ok(p) => (ins matches Result::Ok(q) && p.0@ == q.0 && sc_recs_view(p.1@) == q.1),
        Result::Err(e) => (ins matches Result::Err(m) && err_view(e) == m),
    }
}

} // verus!
