//! Tokenizer: splits one line of input into argument and operator tokens.
//!
//! A line is first split at whitespace; inside a whitespace-free chunk the
//! operators `>>`, `>+`, `>`, `;` and `|` are recognised even when they abut
//! ordinary text, with the two-byte operators taking priority over `>`.

use vstd::prelude::*;

verus! {

/// `>`, the byte every redirection operator starts with.
pub const BYTE_GT: u8 = 62;

/// `+`, the second byte of the insert-redirect operator.
pub const BYTE_PLUS: u8 = 43;

/// `;`, the sequencing operator.
pub const BYTE_SEMI: u8 = 59;

/// `|`, reserved as a delimiter but without parser support.
pub const BYTE_PIPE: u8 = 124;

/// ASCII whitespace: space, tab, line feed, vertical tab, form feed, carriage return.
pub open spec fn is_space(b: u8) -> bool {
    b == 32 || (9 <= b && b <= 13)
}

/// Every operator starts with `>`, `;` or `|`; a delimiter byte is one of
/// those or whitespace.
pub open spec fn is_delim_byte(b: u8) -> bool {
    is_space(b) || b == BYTE_GT || b == BYTE_SEMI || b == BYTE_PIPE
}

/// Length of the operator that starts at position `i`, searching in priority
/// order: `>>` and `>+` before `>`, then `;` and `|`. Zero when no operator
/// starts there.
pub open spec fn op_len_at(s: Seq<u8>, i: int) -> int
    recommends
        0 <= i < s.len(),
{
    if s[i] == BYTE_GT {
        if i + 1 < s.len() && (s[i + 1] == BYTE_GT || s[i + 1] == BYTE_PLUS) {
            2
        } else {
            1
        }
    } else if s[i] == BYTE_SEMI || s[i] == BYTE_PIPE {
        1
    } else {
        0
    }
}

/// Index of the first delimiter byte of `s` (`s.len()` when there is none).
pub open spec fn first_delim(s: Seq<u8>) -> int
    decreases s.len(),
{
    if s.len() == 0 {
        0
    } else if is_delim_byte(s[0]) {
        0
    } else {
        1 + first_delim(s.drop_first())
    }
}

pub proof fn lemma_first_delim(s: Seq<u8>)
    ensures
        0 <= first_delim(s) <= s.len(),
        forall|k: int| 0 <= k < first_delim(s) ==> !is_delim_byte(s[k]),
        first_delim(s) < s.len() ==> is_delim_byte(s[first_delim(s)]),
    decreases s.len(),
{
    if s.len() == 0 {
    } else if is_delim_byte(s[0]) {
    } else {
        lemma_first_delim(s.drop_first());
        assert forall|k: int| 0 <= k < first_delim(s) implies !is_delim_byte(s[k]) by {
            if k >= 1 {
                assert(s[k] == s.drop_first()[k - 1]);
            }
        }
        if first_delim(s) < s.len() {
            assert(s[first_delim(s)] == s.drop_first()[first_delim(s) - 1]);
        }
    }
}

/// `first_delim` is pinned down by its characteristic properties.
pub proof fn lemma_first_delim_is(s: Seq<u8>, d: int)
    requires
        0 <= d <= s.len(),
        forall|k: int| 0 <= k < d ==> !is_delim_byte(s[k]),
        d < s.len() ==> is_delim_byte(s[d]),
    ensures
        first_delim(s) == d,
    decreases s.len(),
{
    if s.len() == 0 {
    } else if d == 0 {
    } else {
        assert(!is_delim_byte(s[0]));
        assert forall|k: int| 0 <= k < d - 1 implies !is_delim_byte(s.drop_first()[k]) by {
            assert(s.drop_first()[k] == s[k + 1]);
        }
        if d - 1 < s.drop_first().len() {
            assert(s.drop_first()[d - 1] == s[d]);
        }
        lemma_first_delim_is(s.drop_first(), d - 1);
    }
}

/// The mathematical shape of a token: argument text or an operator.
pub enum TokenView {
    Arg(Seq<u8>),
    Op(Seq<u8>),
}

impl TokenView {
    /// The bytes the token carries.
    pub open spec fn bytes(self) -> Seq<u8> {
        match self {
            TokenView::Arg(s) => s,
            TokenView::Op(s) => s,
        }
    }
}

/// The token sequence of a line: scan to the first delimiter; text before it
/// (if any) is an argument token; a whitespace delimiter is dropped, an
/// operator delimiter becomes an operator token; the rest of the line is
/// tokenized the same way.
pub open spec fn tokens_of(s: Seq<u8>) -> Seq<TokenView>
    decreases s.len(),
{
    if s.len() == 0 {
        Seq::empty()
    } else {
        proof {
            lemma_first_delim(s);
        }
        let d = first_delim(s);
        if d >= s.len() {
            seq![TokenView::Arg(s)]
        } else {
            let pre: Seq<TokenView> = if d > 0 {
                seq![TokenView::Arg(s.subrange(0, d))]
            } else {
                Seq::empty()
            };
            if is_space(s[d]) {
                pre + tokens_of(s.skip(d + 1))
            } else {
                let l = op_len_at(s, d);
                pre + seq![TokenView::Op(s.subrange(d, d + l))] + tokens_of(s.skip(d + l))
            }
        }
    }
}

/// Dropping one leading whitespace byte leaves the token sequence unchanged.
proof fn lemma_space_skip(s: Seq<u8>, i: int)
    requires
        0 <= i < s.len(),
        is_space(s[i]),
    ensures
        tokens_of(s.skip(i)) == tokens_of(s.skip(i + 1)),
{
    let sub = s.skip(i);
    assert(sub[0] == s[i]);
    assert(first_delim(sub) == 0);
    assert(sub.skip(1) =~= s.skip(i + 1));
    assert(Seq::<TokenView>::empty() + tokens_of(sub.skip(1)) =~= tokens_of(sub.skip(1)));
}

/// A token: argument text or an operator, carrying the bytes it was read from.
#[derive(Debug, PartialEq, Eq)]
pub enum Token {
    Arg(Vec<u8>),
    Op(Vec<u8>),
}

impl View for Token {
    type V = TokenView;

    open spec fn view(&self) -> TokenView {
        match self {
            Token::Arg(v) => TokenView::Arg(v@),
            Token::Op(v) => TokenView::Op(v@),
        }
    }
}

impl Token {
    /// True exactly of argument tokens.
    pub fn is_arg(&self) -> (r: bool)
        ensures
            r == (self@ is Arg),
    {
        match self {
            Token::Arg(_) => true,
            _ => false,
        }
    }

    /// True exactly of operator tokens.
    pub fn is_op(&self) -> (r: bool)
        ensures
            r == (self@ is Op),
    {
        match self {
            Token::Op(_) => true,
            _ => false,
        }
    }

    /// The bytes the token carries, whichever kind it is.
    pub fn unwrap(self) -> (r: Vec<u8>)
        ensures
            r@ == self@.bytes(),
    {
        match self {
            Token::Arg(v) => v,
            Token::Op(v) => v,
        }
    }
}

fn is_space_b(b: u8) -> (r: bool)
    ensures
        r == is_space(b),
{
    b == 32 || (9 <= b && b <= 13)
}

fn is_delim_b(b: u8) -> (r: bool)
    ensures
        r == is_delim_byte(b),
{
    is_space_b(b) || b == BYTE_GT || b == BYTE_SEMI || b == BYTE_PIPE
}

/// A copy of the bytes `v[from..to]`.
fn copy_range(v: &Vec<u8>, from: usize, to: usize) -> (r: Vec<u8>)
    requires
        from <= to <= v@.len(),
    ensures
        r@ == v@.subrange(from as int, to as int),
{
    let mut r: Vec<u8> = Vec::new();
    let mut i = from;
    proof {
        assert(r@ =~= v@.subrange(from as int, from as int));
    }
    while i < to
        invariant
            from <= i <= to <= v@.len(),
            r@ == v@.subrange(from as int, i as int),
        decreases to - i,
    {
        r.push(v[i]);
        i = i + 1;
        proof {
            assert(r@ =~= v@.subrange(from as int, i as int));
        }
    }
    r
}

/// The tokenizer: hands out the tokens of one line, left to right, on demand.
/// A token handed back with `unread` is returned again by the next pull.
pub struct Lexer {
    input: Vec<u8>,
    pos: usize,
    pushback: Option<Token>,
}

impl Lexer {
    /// The scanning position never leaves the line.
    pub closed spec fn wf(&self) -> bool {
        self.pos <= self.input@.len()
    }

    /// The tokens this lexer has yet to hand out.
    pub closed spec fn remaining(&self) -> Seq<TokenView> {
        match self.pushback {
            Some(t) => seq![t@] + tokens_of(self.input@.skip(self.pos as int)),
            None => tokens_of(self.input@.skip(self.pos as int)),
        }
    }

    /// No token is waiting in the pushback slot.
    pub closed spec fn no_pending(&self) -> bool {
        self.pushback is None
    }

    /// A lexer over one line of input.
    pub fn new(input: Vec<u8>) -> (l: Lexer)
        ensures
            l.wf(),
            l.no_pending(),
            l.remaining() == tokens_of(input@),
    {
        let ghost full = input@;
        let l = Lexer { input, pos: 0, pushback: None };
        proof {
            assert(l.input@.skip(0) =~= full);
        }
        l
    }

    /// Put a token back; it will be the next one handed out.
    pub fn unread(&mut self, t: Token)
        requires
            old(self).wf(),
            old(self).no_pending(),
        ensures
            final(self).wf(),
            final(self).remaining() == seq![t@] + old(self).remaining(),
    {
        self.pushback = Some(t);
    }

    /// The next token of the line, or `None` when the line is exhausted.
    pub fn next(&mut self) -> (t: Option<Token>)
        requires
            old(self).wf(),
        ensures
            final(self).wf(),
            final(self).no_pending(),
            match t {
                None => old(self).remaining().len() == 0 && final(self).remaining().len() == 0,
                Some(tok) => old(self).remaining().len() > 0 && tok@ == old(self).remaining()[0]
                    && final(self).remaining() == old(self).remaining().drop_first(),
            },
    {
        let pb = self.pushback.take();
        if let Some(tok) = pb {
            proof {
                assert(old(self).remaining().drop_first() =~= self.remaining());
            }
            return Some(tok);
        }
        // Drop leading whitespace; it separates tokens and is never one.
        while self.pos < self.input.len() && is_space_b(self.input[self.pos])
            invariant
                self.wf(),
                self.pushback is None,
                self.input == old(self).input,
                tokens_of(self.input@.skip(self.pos as int)) == old(self).remaining(),
            decreases self.input@.len() - self.pos,
        {
            proof {
                lemma_space_skip(self.input@, self.pos as int);
            }
            self.pos = self.pos + 1;
        }
        if self.pos == self.input.len() {
            proof {
                assert(self.input@.skip(self.pos as int) =~= Seq::<u8>::empty());
            }
            return None;
        }
        // Scan for the first delimiter byte at or after the position.
        let mut i = self.pos;
        while i < self.input.len() && !is_delim_b(self.input[i])
            invariant
                self.wf(),
                self.pushback is None,
                self.input == old(self).input,
                self.pos <= i <= self.input@.len(),
                forall|k: int| self.pos <= k < i ==> !is_delim_byte(self.input@[k]),
            decreases self.input@.len() - i,
        {
            i = i + 1;
        }
        let ghost s = self.input@.skip(self.pos as int);
        let ghost d = i - self.pos as int;
        proof {
            assert forall|k: int| 0 <= k < d implies !is_delim_byte(s[k]) by {
                assert(s[k] == self.input@[self.pos + k]);
            }
            if i < self.input@.len() {
                assert(s[d] == self.input@[i as int]);
            }
            lemma_first_delim_is(s, d);
            lemma_first_delim(s);
        }
        if i == self.input.len() {
            // No delimiter: the rest of the line is one argument token.
            let bytes = copy_range(&self.input, self.pos, i);
            let ghost p0 = self.pos as int;
            self.pos = i;
            proof {
                assert(bytes@ =~= s);
                assert(tokens_of(s) == seq![TokenView::Arg(s)]);
                assert(self.input@.skip(i as int) =~= Seq::<u8>::empty());
                assert(tokens_of(s).drop_first() =~= tokens_of(self.input@.skip(i as int)));
            }
            return Some(Token::Arg(bytes));
        }
        if is_space_b(self.input[i]) {
            // Text ends at whitespace: hand out the text, drop one space byte.
            proof {
                assert(i > self.pos) by {
                    assert(!is_space(s[0]));
                    assert(s[0] == self.input@[self.pos as int]);
                }
            }
            let bytes = copy_range(&self.input, self.pos, i);
            self.pos = i + 1;
            proof {
                assert(bytes@ =~= s.subrange(0, d));
                let pre = seq![TokenView::Arg(s.subrange(0, d))];
                let rest = tokens_of(s.skip(d + 1));
                assert(tokens_of(s) == pre + rest);
                assert((pre + rest)[0] == TokenView::Arg(s.subrange(0, d)));
                assert(s.skip(d + 1) =~= self.input@.skip(self.pos as int));
                assert((pre + rest).drop_first() =~= rest);
            }
            return Some(Token::Arg(bytes));
        }
        // An operator starts at i; measure it, two-byte forms first.
        let l: usize = if self.input[i] == BYTE_GT && i + 1 < self.input.len() && (self.input[i + 1]
            == BYTE_GT || self.input[i + 1] == BYTE_PLUS) {
            2
        } else {
            1
        };
        proof {
            assert(s[d] == self.input@[i as int]);
            if d + 1 < s.len() {
                assert(s[d + 1] == self.input@[i + 1]);
            }
            assert(l == op_len_at(s, d));
        }
        if i == self.pos {
            // The operator stands first: it is the token itself.
            let bytes = copy_range(&self.input, i, i + l);
            self.pos = i + l;
            proof {
                assert(bytes@ =~= s.subrange(d, d + l));
                let op = seq![TokenView::Op(s.subrange(d, d + l))];
                let rest = tokens_of(s.skip(d + l));
                assert(tokens_of(s) == Seq::<TokenView>::empty() + op + rest);
                assert((Seq::<TokenView>::empty() + op + rest)[0] == op[0]);
                assert(s.skip(d + l) =~= self.input@.skip(self.pos as int));
                assert((Seq::<TokenView>::empty() + op + rest).drop_first() =~= rest);
            }
            return Some(Token::Op(bytes));
        }
        // Text before the operator: hand out the text and leave the operator
        // in place for the next pull.
        let bytes = copy_range(&self.input, self.pos, i);
        self.pos = i;
        proof {
            assert(bytes@ =~= s.subrange(0, d));
            let pre = seq![TokenView::Arg(s.subrange(0, d))];
            let op = seq![TokenView::Op(s.subrange(d, d + l))];
            let rest = tokens_of(s.skip(d + l));
            assert(tokens_of(s) == pre + op + rest);
            assert((pre + op + rest)[0] == pre[0]);
            // The new remaining tokens start at the operator.
            let s2 = self.input@.skip(self.pos as int);
            assert(s2 =~= s.skip(d));
            assert(s2[0] == s[d]);
            lemma_first_delim_is(s2, 0);
            assert(op_len_at(s2, 0) == op_len_at(s, d)) by {
                if 1 < s2.len() {
                    assert(s2[1] == s[d + 1]);
                }
            }
            assert(s2.subrange(0, l as int) =~= s.subrange(d, d + l));
            assert(s2.skip(l as int) =~= s.skip(d + l));
            assert(tokens_of(s2) == Seq::<TokenView>::empty() + seq![
                TokenView::Op(s2.subrange(0, l as int)),
            ] + tokens_of(s2.skip(l as int)));
            assert((pre + op + rest).drop_first() =~= op + rest);
            assert(Seq::<TokenView>::empty() + op + rest =~= op + rest);
        }
        Some(Token::Arg(bytes))
    }
}

/// The views of a sequence of tokens.
pub open spec fn views_of(ts: Seq<Token>) -> Seq<TokenView> {
    Seq::new(ts.len(), |i: int| ts[i]@)
}

/// All tokens of one line, eagerly.
#[verifier::loop_isolation(false)]
pub fn tokenize(input: Vec<u8>) -> (toks: Vec<Token>)
    ensures
        views_of(toks@) == tokens_of(input@),
{
    let ghost all = tokens_of(input@);
    let mut lexer = Lexer::new(input);
    let mut toks: Vec<Token> = Vec::new();
    proof {
        assert(views_of(toks@) + lexer.remaining() =~= all);
    }
    loop
        invariant
            lexer.wf(),
            views_of(toks@) + lexer.remaining() == all,
        decreases lexer.remaining().len(),
    {
        let t = lexer.next();
        match t {
            None => {
                proof {
                    assert(views_of(toks@) =~= all);
                }
                return toks;
            },
            Some(tok) => {
                let ghost before = toks@;
                toks.push(tok);
                proof {
                    assert(views_of(toks@) =~= views_of(before).push(tok@));
                    assert(views_of(toks@) + lexer.remaining() =~= all);
                }
            },
        }
    }
}

/// The bytes of a token sequence, concatenated in order.
pub open spec fn flatten_tokens(ts: Seq<TokenView>) -> Seq<u8>
    decreases ts.len(),
{
    if ts.len() == 0 {
        Seq::empty()
    } else {
        ts[0].bytes() + flatten_tokens(ts.drop_first())
    }
}

/// The bytes of a line with its whitespace removed.
pub open spec fn without_spaces(s: Seq<u8>) -> Seq<u8>
    decreases s.len(),
{
    if s.len() == 0 {
        Seq::empty()
    } else if is_space(s[0]) {
        without_spaces(s.drop_first())
    } else {
        seq![s[0]] + without_spaces(s.drop_first())
    }
}

proof fn lemma_flatten_add(a: Seq<TokenView>, b: Seq<TokenView>)
    ensures
        flatten_tokens(a + b) == flatten_tokens(a) + flatten_tokens(b),
    decreases a.len(),
{
    if a.len() == 0 {
        assert(a + b =~= b);
        assert(flatten_tokens(a) + flatten_tokens(b) =~= flatten_tokens(b));
    } else {
        assert((a + b).drop_first() =~= a.drop_first() + b);
        lemma_flatten_add(a.drop_first(), b);
        assert((a + b)[0] == a[0]);
        assert(a[0].bytes() + (flatten_tokens(a.drop_first()) + flatten_tokens(b)) =~= (a[0].bytes()
            + flatten_tokens(a.drop_first())) + flatten_tokens(b));
    }
}

proof fn lemma_flatten_single(t: TokenView)
    ensures
        flatten_tokens(seq![t]) == t.bytes(),
{
    assert(seq![t].drop_first() =~= Seq::<TokenView>::empty());
    assert(flatten_tokens(Seq::<TokenView>::empty()) == Seq::<u8>::empty());
    assert(t.bytes() + Seq::<u8>::empty() =~= t.bytes());
}

proof fn lemma_without_spaces_add(a: Seq<u8>, b: Seq<u8>)
    ensures
        without_spaces(a + b) == without_spaces(a) + without_spaces(b),
    decreases a.len(),
{
    if a.len() == 0 {
        assert(a + b =~= b);
        assert(without_spaces(a) + without_spaces(b) =~= without_spaces(b));
    } else {
        assert((a + b).drop_first() =~= a.drop_first() + b);
        lemma_without_spaces_add(a.drop_first(), b);
        assert((a + b)[0] == a[0]);
        if !is_space(a[0]) {
            assert(seq![a[0]] + (without_spaces(a.drop_first()) + without_spaces(b)) =~= (seq![
                a[0],
            ] + without_spaces(a.drop_first())) + without_spaces(b));
        }
    }
}

proof fn lemma_without_spaces_all_kept(s: Seq<u8>)
    requires
        forall|k: int| 0 <= k < s.len() ==> !is_space(s[k]),
    ensures
        without_spaces(s) == s,
    decreases s.len(),
{
    if s.len() == 0 {
        assert(without_spaces(s) =~= s);
    } else {
        assert forall|k: int| 0 <= k < s.drop_first().len() implies !is_space(
            s.drop_first()[k],
        ) by {
            assert(s.drop_first()[k] == s[k + 1]);
        }
        lemma_without_spaces_all_kept(s.drop_first());
        assert(seq![s[0]] + s.drop_first() =~= s);
    }
}

/// Law: tokenizing loses exactly the whitespace. The bytes of all tokens of a
/// line, concatenated in order, are the line with its whitespace removed; in
/// particular every argument substring and operator is carried over verbatim.
pub proof fn lemma_tokens_preserve_text(s: Seq<u8>)
    ensures
        flatten_tokens(tokens_of(s)) == without_spaces(s),
    decreases s.len(),
{
    if s.len() == 0 {
        assert(flatten_tokens(tokens_of(s)) =~= without_spaces(s));
    } else {
        lemma_first_delim(s);
        let d = first_delim(s);
        let pre = s.subrange(0, d);
        assert forall|k: int| 0 <= k < pre.len() implies !is_space(pre[k]) by {
            assert(pre[k] == s[k]);
        }
        lemma_without_spaces_all_kept(pre);
        if d >= s.len() {
            assert(pre =~= s);
            assert(tokens_of(s) == seq![TokenView::Arg(s)]);
            lemma_flatten_single(TokenView::Arg(s));
        } else if is_space(s[d]) {
            lemma_tokens_preserve_text(s.skip(d + 1));
            let pret: Seq<TokenView> = if d > 0 {
                seq![TokenView::Arg(pre)]
            } else {
                Seq::empty()
            };
            lemma_flatten_add(pret, tokens_of(s.skip(d + 1)));
            if d > 0 {
                lemma_flatten_single(TokenView::Arg(pre));
            }
            assert(flatten_tokens(pret) =~= pre);
            // The line splits at the whitespace byte, which contributes nothing.
            assert(s =~= pre + seq![s[d]] + s.skip(d + 1));
            lemma_without_spaces_add(pre + seq![s[d]], s.skip(d + 1));
            lemma_without_spaces_add(pre, seq![s[d]]);
            assert(seq![s[d]].drop_first() =~= Seq::<u8>::empty());
            assert(without_spaces(Seq::<u8>::empty()) == Seq::<u8>::empty());
            assert(without_spaces(seq![s[d]]) =~= Seq::<u8>::empty());
            assert(flatten_tokens(tokens_of(s)) =~= without_spaces(s));
        } else {
            let l = op_len_at(s, d);
            let op = s.subrange(d, d + l);
            lemma_tokens_preserve_text(s.skip(d + l));
            let pret: Seq<TokenView> = if d > 0 {
                seq![TokenView::Arg(pre)]
            } else {
                Seq::empty()
            };
            lemma_flatten_add(pret + seq![TokenView::Op(op)], tokens_of(s.skip(d + l)));
            lemma_flatten_add(pret, seq![TokenView::Op(op)]);
            if d > 0 {
                lemma_flatten_single(TokenView::Arg(pre));
            }
            assert(flatten_tokens(pret) =~= pre);
            lemma_flatten_single(TokenView::Op(op));
            assert(s =~= pre + op + s.skip(d + l));
            lemma_without_spaces_add(pre + op, s.skip(d + l));
            lemma_without_spaces_add(pre, op);
            assert forall|k: int| 0 <= k < op.len() implies !is_space(op[k]) by {
                assert(op[0] == s[d]);
                if k == 1 {
                    assert(op[1] == s[d + 1]);
                }
            }
            lemma_without_spaces_all_kept(op);
            assert(flatten_tokens(tokens_of(s)) =~= without_spaces(s));
        }
    }
}

} // verus!
