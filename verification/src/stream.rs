use vstd::prelude::*;

use crate::parse_spec::{segment, source_map_of, SourceMap};
use crate::token::{CssToken, SpecToken};
use crate::token_spec::{lemma_token_spans, spans_ok, tokenize};
use crate::tokenizer::{spans_view, string_of, tokenization_with_spans, tokens_view};

verus! {

/// A stream of tokens with a current position and a stack of marks. It also keeps the
/// text the tokens come from and where each token lies in it.
#[derive(Debug)]
pub struct TokenStream {
    tokens: Vec<CssToken>,
    spans: Vec<(usize, usize)>,
    source: Vec<char>,
    pos: usize,
    marks: Vec<usize>,
}

impl TokenStream {
    /// The tokens of the stream.
    pub closed spec fn toks(&self) -> Seq<SpecToken> {
        tokens_view(self.tokens@)
    }

    /// The index of the next token.
    pub closed spec fn position(&self) -> int {
        self.pos as int
    }

    /// The marked positions, the most recent last.
    pub closed spec fn marks(&self) -> Seq<int> {
        self.marks@.map_values(|m: usize| m as int)
    }

    /// The text the tokens come from and where each token lies in it.
    pub closed spec fn source_map(&self) -> SourceMap {
        SourceMap { spans: spans_view(self.spans@), text: self.source@ }
    }

    /// The position and every mark lie inside the token list; there is one span per token,
    /// and the spans are in order inside the text.
    pub closed spec fn wf(&self) -> bool {
        &&& self.spans.len() == self.tokens.len()
        &&& spans_ok(spans_view(self.spans@), self.source.len() as int)
        &&& self.pos <= self.tokens.len()
        &&& forall|k: int| 0 <= k < self.marks@.len() ==> #[trigger] self.marks@[k] <= self.tokens.len()
    }

    pub proof fn lemma_wf(&self)
        requires
            self.wf(),
        ensures
            0 <= self.position() <= self.toks().len(),
            forall|k: int| 0 <= k < self.marks().len() ==> 0 <= #[trigger] self.marks()[k] <= self.toks().len(),
            self.source_map().spans.len() == self.toks().len(),
            spans_ok(self.source_map().spans, self.source_map().text.len() as int),
    {
    }

    /// A stream over `tokens`, at its first token and with no mark. No text is known: each
    /// token has the empty span at 0 of an empty text.
    pub fn new(tokens: Vec<CssToken>) -> (s: TokenStream)
        ensures
            s.wf(),
            s.toks() == tokens_view(tokens@),
            s.position() == 0,
            s.marks() == Seq::<int>::empty(),
            s.source_map().text == Seq::<char>::empty(),
    {
        let mut spans: Vec<(usize, usize)> = Vec::new();
        let mut k: usize = 0;
        while k < tokens.len()
            invariant
                k <= tokens.len(),
                spans@.len() == k,
                forall|a: int| 0 <= a < k ==> #[trigger] spans@[a] == (0usize, 0usize),
            decreases tokens.len() - k,
        {
            spans.push((0, 0));
            k = k + 1;
        }
        let s = TokenStream { tokens, spans, source: Vec::new(), pos: 0, marks: Vec::new() };
        assert(s.marks() =~= Seq::<int>::empty());
        assert forall|a: int| 0 <= a < spans_view(s.spans@).len() implies 0
            <= #[trigger] spans_view(s.spans@)[a].0 <= spans_view(s.spans@)[a].1 <= 0 by {
            assert(s.spans@[a] == (0usize, 0usize));
        }
        assert forall|a: int, b: int| 0 <= a < b < spans_view(s.spans@).len() implies
            #[trigger] spans_view(s.spans@)[a].1 <= #[trigger] spans_view(s.spans@)[b].0 by {
            assert(s.spans@[a] == (0usize, 0usize));
            assert(s.spans@[b] == (0usize, 0usize));
        }
        s
    }

    /// The stream of the tokens of `source`, a text as preprocessing gives it, with the
    /// place of each token in it.
    pub fn from_source(source: Vec<char>) -> (s: TokenStream)
        ensures
            s.wf(),
            s.toks() == tokenize(source@),
            s.source_map() == source_map_of(source@),
            s.position() == 0,
            s.marks() == Seq::<int>::empty(),
    {
        let (tokens, spans) = tokenization_with_spans(&source);
        proof {
            lemma_token_spans(source@);
        }
        let s = TokenStream { tokens, spans, source, pos: 0, marks: Vec::new() };
        assert(s.marks() =~= Seq::<int>::empty());
        s
    }

    /// The text of the tokens at indices `a..b` (see `segment`).
    pub fn source_text(&self, a: usize, b: usize) -> (r: String)
        requires
            self.wf(),
            a <= b <= self.toks().len(),
        ensures
            r@ == segment(self.source_map(), a as int, b as int),
    {
        if a < b {
            let ghost sp = spans_view(self.spans@);
            assert(0 <= sp[a as int].0 <= sp[a as int].1 <= self.source.len());
            assert(0 <= sp[b - 1].0 <= sp[b - 1].1 <= self.source.len());
            if a < b - 1 {
                assert(sp[a as int].1 <= sp[b - 1].0);
            }
            string_of(&self.source, self.spans[a].0, self.spans[b - 1].1)
        } else {
            String::new()
        }
    }

    /// The index of the next token.
    pub fn pos(&self) -> (p: usize)
        ensures
            p == self.position(),
    {
        self.pos
    }

    /// The number of tokens in the stream.
    pub fn len(&self) -> (n: usize)
        ensures
            n == self.toks().len(),
    {
        self.tokens.len()
    }

    /// The next token, without consuming it.
    pub fn peek(&self) -> (r: Option<CssToken>)
        requires
            self.wf(),
        ensures
            r is Some <==> self.position() < self.toks().len(),
            r matches Some(t) ==> t@ == self.toks()[self.position()],
    {
        if self.pos < self.tokens.len() {
            Some(self.tokens[self.pos].clone_token())
        } else {
            None
        }
    }

    /// Consume the next token and return it; at the end, return `None` and stay there.
    pub fn next(&mut self) -> (r: Option<CssToken>)
        requires
            old(self).wf(),
        ensures
            final(self).wf(),
            final(self).toks() == old(self).toks(),
            final(self).source_map() == old(self).source_map(),
            final(self).marks() == old(self).marks(),
            r is Some <==> old(self).position() < old(self).toks().len(),
            r matches Some(t) ==> t@ == old(self).toks()[old(self).position()],
            final(self).position() == if old(self).position() < old(self).toks().len() {
                old(self).position() + 1
            } else {
                old(self).position()
            },
    {
        if self.pos < self.tokens.len() {
            let t = self.tokens[self.pos].clone_token();
            self.pos = self.pos + 1;
            Some(t)
        } else {
            None
        }
    }

    /// Push the current position on the stack of marks.
    pub fn mark(&mut self)
        requires
            old(self).wf(),
        ensures
            final(self).wf(),
            final(self).toks() == old(self).toks(),
            final(self).source_map() == old(self).source_map(),
            final(self).position() == old(self).position(),
            final(self).marks() == old(self).marks().push(old(self).position()),
    {
        self.marks.push(self.pos);
        assert(self.marks() =~= old(self).marks().push(old(self).position()));
    }

    /// Restore the most recent mark: go back to it and remove it. Without a mark, do nothing.
    pub fn unmark(&mut self)
        requires
            old(self).wf(),
        ensures
            final(self).wf(),
            final(self).toks() == old(self).toks(),
            final(self).source_map() == old(self).source_map(),
            old(self).marks().len() > 0 ==> final(self).position() == old(self).marks().last()
                && final(self).marks() == old(self).marks().drop_last(),
            old(self).marks().len() == 0 ==> final(self).position() == old(self).position()
                && final(self).marks() == old(self).marks(),
    {
        if let Some(m) = self.marks.pop() {
            self.pos = m;
            assert(self.marks() =~= old(self).marks().drop_last());
        }
    }

    /// Remove the most recent mark and stay where the stream is. Without a mark, do nothing.
    pub fn discard_mark(&mut self)
        requires
            old(self).wf(),
        ensures
            final(self).wf(),
            final(self).toks() == old(self).toks(),
            final(self).source_map() == old(self).source_map(),
            final(self).position() == old(self).position(),
            final(self).marks() == if old(self).marks().len() > 0 {
                old(self).marks().drop_last()
            } else {
                old(self).marks()
            },
    {
        if self.marks.len() > 0 {
            let _ = self.marks.pop();
            assert(self.marks() =~= old(self).marks().drop_last());
        }
    }
}

} // verus!
