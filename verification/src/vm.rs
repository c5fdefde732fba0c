use vstd::prelude::*;

use crate::chunk::{Chunk, OpCode};
use crate::disasm::{disassemble_instruction, entry_at};
use crate::scan::{
    comment_end, digits_end, has_sentinel, ident_end, is_alpha, is_digit, is_ident_char,
    lemma_comment_end, lemma_scan_progress, lemma_scan_props, lemma_skip_ws, scan_spec, skip_ws,
    string_body_end, ScanOut,
};
use crate::stack::{Stack, STACK_SIZE};
use crate::token::{Token, TokenType};
use crate::trace::{out_view, stack_events, TraceEvent, TraceEventModel};
use crate::value::Value;

verus! {

/// How a call of `interpret` can fail: the source text did not scan or
/// translate into a valid chunk, or execution faulted.
#[derive(Clone, Copy, PartialEq, Eq, Structural, Debug)]
#[allow(non_camel_case_types)]
pub enum VM_Errors {
    CompileError,
    RuntimeError,
}

fn is_digit_e(c: char) -> (b: bool)
    ensures
        b == is_digit(c),
{
    c >= '0' && c <= '9'
}

fn is_alpha_e(c: char) -> (b: bool)
    ensures
        b == is_alpha(c),
{
    (c >= 'a' && c <= 'z') || (c >= 'A' && c <= 'Z') || c == '_'
}

fn is_ident_char_e(c: char) -> (b: bool)
    ensures
        b == is_ident_char(c),
{
    is_alpha_e(c) || is_digit_e(c)
}

/// The outcome of the compilation stage: whether it reached the
/// end-of-input token (rather than a lexical error), the token events it
/// reported, and the scanner state it left behind.
pub struct CompileOut {
    pub ok: bool,
    pub events: Seq<TraceEventModel>,
    pub pos: int,
    pub line: int,
}

/// The event reported for one scanned token; `prev` is the line of the
/// token before it, so `first` marks the first token of each line.
pub open spec fn token_event(r: ScanOut, prev: int) -> TraceEventModel {
    TraceEventModel::TokenLine { first: r.token.line != prev, token: r.token }
}

/// The compilation stage, token by token: scan and report until the
/// end-of-input token (success) or the first error token (failure). No
/// instructions are emitted yet; see `VM::interpret`.
pub open spec fn compile_spec(src: Seq<char>, pos: int, line: int, prev: int) -> CompileOut
    decreases src.len() - pos,
        via compile_spec_dec
{
    if pos < 0 || pos > src.len() {
        CompileOut { ok: false, events: Seq::empty(), pos, line }
    } else {
        let r = scan_spec(src, pos, line);
        let ev = token_event(r, prev);
        if r.token.kind == TokenType::Eof {
            CompileOut { ok: true, events: seq![ev], pos: r.pos, line: r.line }
        } else if r.token.kind == TokenType::Error {
            CompileOut { ok: false, events: seq![ev], pos: r.pos, line: r.line }
        } else {
            let rest = compile_spec(src, r.pos, r.line, r.token.line);
            CompileOut {
                ok: rest.ok,
                events: seq![ev] + rest.events,
                pos: rest.pos,
                line: rest.line,
            }
        }
    }
}

#[via_fn]
proof fn compile_spec_dec(src: Seq<char>, pos: int, line: int, prev: int) {
    if 0 <= pos <= src.len() {
        let r = scan_spec(src, pos, line);
        if r.token.kind != TokenType::Eof && r.token.kind != TokenType::Error {
            lemma_scan_progress(src, pos, line);
        }
    }
}

/// The outcome of the dispatch loop: the result value of a `Return` (or
/// nothing, on a runtime fault), the stack left behind, and the trace
/// events emitted.
pub struct RunOut {
    pub ok: Option<Value>,
    pub stack: Seq<Value>,
    pub events: Seq<TraceEventModel>,
}

/// The dispatch loop from instruction pointer `ip`: fetch, decode and
/// execute until a `Return` delivers the top of the stack, or a fault —
/// running off the end, an orphan or invalid operand slot, stack overflow
/// or underflow — stops execution. With `debug` on, each dispatch is
/// preceded by a rendering of the stack and of the instruction about to
/// execute.
pub open spec fn run_spec(
    code: Seq<OpCode>,
    consts: Seq<Value>,
    stack: Seq<Value>,
    ip: int,
    debug: bool,
) -> RunOut
    decreases code.len() - ip,
{
    if ip < 0 || ip >= code.len() {
        RunOut { ok: None, stack, events: Seq::empty() }
    } else {
        let pre = if debug {
            stack_events(stack).push(
                TraceEventModel::Instruction { entry: entry_at(code, consts, ip) },
            )
        } else {
            Seq::empty()
        };
        match code[ip] {
            OpCode::OpReturn => {
                if stack.len() == 0 {
                    RunOut { ok: None, stack, events: pre }
                } else {
                    RunOut {
                        ok: Some(stack.last()),
                        stack: stack.drop_last(),
                        events: pre.push(TraceEventModel::Returned { value: stack.last() }),
                    }
                }
            },
            OpCode::OpConstant => {
                if ip + 1 < code.len() {
                    match code[ip + 1] {
                        OpCode::ConstantIdx(i) => {
                            if (i as int) < consts.len() && stack.len() < STACK_SIZE {
                                let rest = run_spec(
                                    code,
                                    consts,
                                    stack.push(consts[i as int]),
                                    ip + 2,
                                    debug,
                                );
                                RunOut { ok: rest.ok, stack: rest.stack, events: pre + rest.events }
                            } else {
                                RunOut { ok: None, stack, events: pre }
                            }
                        },
                        _ => RunOut { ok: None, stack, events: pre },
                    }
                } else {
                    RunOut { ok: None, stack, events: pre }
                }
            },
            OpCode::ConstantIdx(_) => RunOut { ok: None, stack, events: pre },
        }
    }
}

/// Round trip of a constant load: a program of one appended constant `v`
/// followed by a return yields `v` as the result, leaves the stack empty,
/// and — with debug tracing on — renders exactly one stack entry, equal
/// to `v`, immediately before the final return instruction.
pub proof fn lemma_round_trip(v: Value)
    ensures
        ({
            let code = seq![OpCode::OpConstant, OpCode::ConstantIdx(0usize), OpCode::OpReturn];
            let r = run_spec(code, seq![v], Seq::<Value>::empty(), 0, true);
            &&& r.ok == Some(v)
            &&& r.stack == Seq::<Value>::empty()
            &&& r.events =~= seq![
                TraceEventModel::Instruction {
                    entry: crate::disasm::DisasmEntry::Constant { offset: 0, value: v },
                },
                TraceEventModel::StackValue { value: v },
                TraceEventModel::Instruction {
                    entry: crate::disasm::DisasmEntry::Return { offset: 2 },
                },
                TraceEventModel::Returned { value: v },
            ]
        }),
{
    let code = seq![OpCode::OpConstant, OpCode::ConstantIdx(0usize), OpCode::OpReturn];
    let consts = seq![v];
    let s0 = Seq::<Value>::empty();
    let s1 = s0.push(v);
    assert(code.len() == 3);
    assert(code[0] is OpConstant);
    assert(code[1] == OpCode::ConstantIdx(0usize));
    assert(code[2] is OpReturn);
    assert(consts[0] == v);
    assert(stack_events(s0) =~= Seq::<TraceEventModel>::empty());
    assert(stack_events(s1) =~= seq![TraceEventModel::StackValue { value: v }]);
    assert(entry_at(code, consts, 0) == (crate::disasm::DisasmEntry::Constant {
        offset: 0,
        value: v,
    }));
    assert(entry_at(code, consts, 2) == (crate::disasm::DisasmEntry::Return { offset: 2 }));
    let r2 = run_spec(code, consts, s1, 2, true);
    assert(s1.len() == 1 && s1.last() == v);
    assert(r2.ok == Some(v));
    assert(r2.stack =~= s0);
    let r = run_spec(code, consts, s0, 0, true);
    assert(r.ok == r2.ok && r.stack == r2.stack);
    assert(r.events =~= seq![
        TraceEventModel::Instruction {
            entry: crate::disasm::DisasmEntry::Constant { offset: 0, value: v },
        },
        TraceEventModel::StackValue { value: v },
        TraceEventModel::Instruction { entry: crate::disasm::DisasmEntry::Return { offset: 2 } },
        TraceEventModel::Returned { value: v },
    ]);
}

/// The virtual machine: at most one bound chunk, an instruction pointer
/// into it, the execution stack, a debug flag fixed at construction, the
/// scanner's state, and the observation channel everything it would print
/// is recorded on.
pub struct VM {
    pub chunk: Option<Chunk>,
    pub ip: usize,
    pub stack: Stack,
    pub debug: bool,
    pub source: String,
    pub start: usize,
    pub current: usize,
    pub line: usize,
    pub output: Vec<TraceEvent>,
}

impl VM {
    /// The scanner can keep going: a sentinel terminator lies ahead of the
    /// cursor, and the line counter cannot overflow even if every
    /// remaining character were a newline.
    pub open spec fn scan_wf(&self) -> bool {
        &&& self.source@.len() <= usize::MAX
        &&& has_sentinel(self.source@, self.current as int)
        &&& self.line + (self.source@.len() - self.current as int) <= usize::MAX
    }

    /// Everything the scanner does not touch.
    pub open spec fn same_but_scan(pre: &VM, post: &VM) -> bool {
        &&& post.source == pre.source
        &&& post.chunk == pre.chunk
        &&& post.stack == pre.stack
        &&& post.output == pre.output
        &&& post.debug == pre.debug
        &&& post.ip == pre.ip
    }

    pub fn new(debug: bool) -> (vm: VM)
        ensures
            vm.chunk is None,
            vm.ip == 0,
            vm.stack@ == Seq::<crate::value::Value>::empty(),
            vm.debug == debug,
            vm.source@ == Seq::<char>::empty(),
            vm.start == 0,
            vm.current == 0,
            vm.line == 1,
            vm.output@ == Seq::<TraceEvent>::empty(),
    {
        VM {
            chunk: None,
            ip: 0,
            debug,
            stack: Stack::new(),
            source: String::new(),
            start: 0,
            current: 0,
            line: 1,
            output: Vec::new(),
        }
    }

    /// The character under the cursor. A sentinel ahead keeps the cursor
    /// in bounds.
    fn peek(&self) -> (c: char)
        requires
            self.scan_wf(),
        ensures
            c == self.source@[self.current as int],
    {
        proof {
            let i = choose|i: int|
                self.current as int <= i < self.source@.len() && self.source@[i] == '\0';
            assert((self.current as int) <= i && i < self.source@.len());
        }
        self.source.as_str().get_char(self.current)
    }

    /// The character after the cursor, or the sentinel if the cursor is on
    /// the sentinel already.
    fn peek_next(&self) -> (c: char)
        requires
            self.scan_wf(),
        ensures
            c == (if self.source@[self.current as int] == '\0' {
                '\0'
            } else {
                self.source@[self.current as int + 1]
            }),
    {
        let cur = self.peek();
        if cur == '\0' {
            '\0'
        } else {
            proof {
                let i = choose|i: int|
                    self.current as int <= i < self.source@.len() && self.source@[i] == '\0';
                assert((self.current as int) < i && i < self.source@.len());
            }
            self.source.as_str().get_char(self.current + 1)
        }
    }

    /// Consume and return the character under the cursor.
    fn advance(&mut self) -> (c: Option<char>)
        requires
            old(self).scan_wf(),
        ensures
            c == Some(old(self).source@[old(self).current as int]),
            final(self).current == old(self).current + 1,
            final(self).line == old(self).line,
            final(self).start == old(self).start,
            VM::same_but_scan(old(self), final(self)),
    {
        let ch = self.peek();
        proof {
            let i = choose|i: int|
                self.current as int <= i < self.source@.len() && self.source@[i] == '\0';
            assert((self.current as int) <= i && i < self.source@.len());
        }
        self.current = self.current + 1;
        Some(ch)
    }

    /// Consume the character under the cursor exactly when it is
    /// `expected`, reporting whether it did.
    fn check(&mut self, expected: char) -> (b: bool)
        requires
            old(self).scan_wf(),
        ensures
            b == (old(self).source@[old(self).current as int] == expected),
            final(self).current as int == old(self).current as int + (if b {
                1int
            } else {
                0int
            }),
            final(self).line == old(self).line,
            final(self).start == old(self).start,
            VM::same_but_scan(old(self), final(self)),
    {
        let cur = self.peek();
        if cur != expected {
            return false;
        }
        proof {
            let i = choose|i: int|
                self.current as int <= i < self.source@.len() && self.source@[i] == '\0';
            assert((self.current as int) <= i && i < self.source@.len());
        }
        self.current = self.current + 1;
        true
    }

    /// Consume a `//` comment up to, but not including, the newline or
    /// sentinel that ends it.
    fn skip_comment(&mut self)
        requires
            old(self).scan_wf(),
        ensures
            final(self).current as int == comment_end(
                old(self).source@,
                old(self).current as int,
            ),
            final(self).line == old(self).line,
            final(self).start == old(self).start,
            VM::same_but_scan(old(self), final(self)),
            final(self).scan_wf(),
    {
        loop
            invariant
                self.scan_wf(),
                self.line == old(self).line,
                self.start == old(self).start,
                VM::same_but_scan(old(self), self),
                old(self).current <= self.current,
                comment_end(self.source@, old(self).current as int) == comment_end(
                    self.source@,
                    self.current as int,
                ),
            decreases self.source@.len() - self.current,
        {
            let c = self.peek();
            if c != '\n' && c != '\0' {
                proof {
                    let i = choose|i: int|
                        self.current as int <= i < self.source@.len() && self.source@[i] == '\0';
                    assert((self.current as int) < i && i < self.source@.len());
                }
                self.advance();
            } else {
                return ;
            }
        }
    }

    /// Skip blanks, newlines (counting them) and `//` comments, stopping
    /// at the first character that can begin a token.
    pub fn skip_whitespace(&mut self)
        requires
            old(self).scan_wf(),
        ensures
            final(self).current as int == skip_ws(
                old(self).source@,
                old(self).current as int,
                old(self).line as int,
            ).0,
            final(self).line as int == skip_ws(
                old(self).source@,
                old(self).current as int,
                old(self).line as int,
            ).1,
            final(self).start == old(self).start,
            VM::same_but_scan(old(self), final(self)),
            final(self).scan_wf(),
    {
        loop
            invariant
                self.scan_wf(),
                self.start == old(self).start,
                VM::same_but_scan(old(self), self),
                old(self).current <= self.current,
                skip_ws(old(self).source@, old(self).current as int, old(self).line as int)
                    == skip_ws(self.source@, self.current as int, self.line as int),
            decreases self.source@.len() - self.current,
        {
            let ghost pre = *self;
            let c = self.peek();
            if c == ' ' || c == '\t' || c == '\r' {
                proof {
                    let i = choose|i: int|
                        self.current as int <= i < self.source@.len() && self.source@[i] == '\0';
                    assert((self.current as int) < i && i < self.source@.len());
                }
                self.advance();
            } else if c == '\n' {
                proof {
                    let i = choose|i: int|
                        self.current as int <= i < self.source@.len() && self.source@[i] == '\0';
                    assert((self.current as int) < i && i < self.source@.len());
                }
                self.advance();
                self.line = self.line + 1;
            } else if c == '/' {
                let next = self.peek_next();
                if next == '/' {
                    proof {
                        let i = choose|i: int|
                            self.current as int <= i < self.source@.len() && self.source@[i]
                                == '\0';
                        assert((self.current as int) < i && i < self.source@.len());
                        lemma_comment_end(self.source@, self.current as int);
                    }
                    self.skip_comment();
                    proof {
                        let m = pre.current as int;
                        let i = choose|i: int|
                            m <= i < pre.source@.len() && pre.source@[i] == '\0';
                        assert(m < i && i < self.source@.len());
                        assert(comment_end(self.source@, m) == comment_end(self.source@, m + 1));
                        assert(comment_end(self.source@, m + 1) == comment_end(
                            self.source@,
                            m + 2,
                        ));
                        assert(skip_ws(pre.source@, pre.current as int, pre.line as int)
                            == skip_ws(self.source@, self.current as int, self.line as int));
                    }
                } else {
                    // a bare slash begins a token
                    return ;
                }
            } else {
                return ;
            }
        }
    }

    /// Scan the rest of a string literal, the opening quote already
    /// consumed: up to the closing quote, or to the sentinel, which makes
    /// it unterminated.
    fn string(&mut self) -> (t: Token)
        requires
            old(self).scan_wf(),
            old(self).start <= old(self).current,
        ensures
            ({
                let el = string_body_end(
                    old(self).source@,
                    old(self).current as int,
                    old(self).line as int,
                );
                let e = el.0;
                let l2 = el.1;
                &&& final(self).line as int == l2
                &&& final(self).start == old(self).start
                &&& VM::same_but_scan(old(self), final(self))
                &&& if e >= old(self).source@.len() || old(self).source@[e] == '\0' {
                    &&& final(self).current as int == e
                    &&& t@ == crate::scan::error_out("Unterminated String"@, e, l2).token
                } else {
                    &&& final(self).current as int == e + 1
                    &&& t@ == crate::scan::span_out(
                        TokenType::Str,
                        old(self).start as int,
                        e + 1,
                        l2,
                    ).token
                }
            }),
    {
        loop
            invariant
                self.scan_wf(),
                self.start == old(self).start,
                self.start <= self.current,
                VM::same_but_scan(old(self), self),
                old(self).current <= self.current,
                string_body_end(old(self).source@, old(self).current as int, old(self).line as int)
                    == string_body_end(self.source@, self.current as int, self.line as int),
            ensures
                self.scan_wf(),
                self.start == old(self).start,
                self.start <= self.current,
                VM::same_but_scan(old(self), self),
                string_body_end(old(self).source@, old(self).current as int, old(self).line as int)
                    == (self.current as int, self.line as int),
                self.source@[self.current as int] == '"' || self.source@[self.current as int]
                    == '\0',
            decreases self.source@.len() - self.current,
        {
            let c = self.peek();
            if c != '"' && c != '\0' {
                proof {
                    let i = choose|i: int|
                        self.current as int <= i < self.source@.len() && self.source@[i] == '\0';
                    assert((self.current as int) < i && i < self.source@.len());
                }
                self.advance();
                if c == '\n' {
                    self.line = self.line + 1;
                }
            } else {
                break ;
            }
        }
        if self.peek() == '\0' {
            Token::error(String::from_str("Unterminated String"), self.line)
        } else {
            self.advance();
            Token::create(TokenType::Str, self.start, self.current, self.line)
        }
    }

    /// Scan the rest of a numeric literal, the first digit already
    /// consumed: the digit run, and a fractional part only when a digit
    /// follows the dot.
    fn number(&mut self) -> (t: Token)
        requires
            old(self).scan_wf(),
            old(self).start <= old(self).current,
        ensures
            ({
                let src = old(self).source@;
                let d1 = digits_end(src, old(self).current as int);
                let frac = d1 < src.len() && src[d1] == '.' && d1 + 1 < src.len() && is_digit(
                    src[d1 + 1],
                );
                let d = if frac {
                    digits_end(src, d1 + 1)
                } else {
                    d1
                };
                &&& final(self).current as int == d
                &&& final(self).line == old(self).line
                &&& final(self).start == old(self).start
                &&& VM::same_but_scan(old(self), final(self))
                &&& t@ == crate::scan::span_out(
                    TokenType::Number,
                    old(self).start as int,
                    d,
                    old(self).line as int,
                ).token
            }),
    {
        loop
            invariant
                self.scan_wf(),
                self.line == old(self).line,
                self.start == old(self).start,
                self.start <= self.current,
                VM::same_but_scan(old(self), self),
                old(self).current <= self.current,
                digits_end(self.source@, old(self).current as int) == digits_end(
                    self.source@,
                    self.current as int,
                ),
            ensures
                self.scan_wf(),
                self.line == old(self).line,
                self.start == old(self).start,
                self.start <= self.current,
                VM::same_but_scan(old(self), self),
                digits_end(self.source@, old(self).current as int) == self.current as int,
                !is_digit(self.source@[self.current as int]),
            decreases self.source@.len() - self.current,
        {
            let c = self.peek();
            if is_digit_e(c) {
                proof {
                    let i = choose|i: int|
                        self.current as int <= i < self.source@.len() && self.source@[i] == '\0';
                    assert((self.current as int) < i && i < self.source@.len());
                }
                self.advance();
            } else {
                break ;
            }
        }
        proof {
            let i = choose|i: int|
                self.current as int <= i < self.source@.len() && self.source@[i] == '\0';
            assert((self.current as int) <= i && i < self.source@.len());
        }
        let c = self.peek();
        let cn = self.peek_next();
        if c == '.' && is_digit_e(cn) {
            proof {
                let i = choose|i: int|
                    self.current as int <= i < self.source@.len() && self.source@[i] == '\0';
                assert((self.current as int) < i && i < self.source@.len());
            }
            // consume the dot, then the fractional digit run
            self.advance();
            let ghost mid = self.current as int;
            loop
                invariant
                    self.scan_wf(),
                    self.line == old(self).line,
                    self.start == old(self).start,
                    self.start <= self.current,
                    VM::same_but_scan(old(self), self),
                    mid <= self.current as int,
                    digits_end(self.source@, mid) == digits_end(
                        self.source@,
                        self.current as int,
                    ),
                ensures
                    self.scan_wf(),
                    self.line == old(self).line,
                    self.start == old(self).start,
                    self.start <= self.current,
                    VM::same_but_scan(old(self), self),
                    digits_end(self.source@, mid) == self.current as int,
                decreases self.source@.len() - self.current,
            {
                let c2 = self.peek();
                if is_digit_e(c2) {
                    proof {
                        let i = choose|i: int|
                            self.current as int <= i < self.source@.len() && self.source@[i]
                                == '\0';
                        assert((self.current as int) < i && i < self.source@.len());
                    }
                    self.advance();
                } else {
                    break ;
                }
            }
        }
        Token::create(TokenType::Number, self.start, self.current, self.line)
    }

    /// Does the lexeme `start..current` read exactly `kw`?
    fn lexeme_is(&self, kw: &str) -> (b: bool)
        requires
            self.start <= self.current,
            self.current as int <= self.source@.len(),
        ensures
            b == (self.source@.subrange(self.start as int, self.current as int) == kw@),
    {
        let ghost sub = self.source@.subrange(self.start as int, self.current as int);
        let klen = kw.unicode_len();
        if self.current - self.start != klen {
            return false;
        }
        let mut j: usize = 0;
        while j < klen
            invariant
                j <= klen,
                klen as int == kw@.len(),
                self.current - self.start == klen,
                self.start <= self.current,
                self.current as int <= self.source@.len(),
                sub == self.source@.subrange(self.start as int, self.current as int),
                forall|k: int| 0 <= k < j ==> self.source@[self.start + k] == kw@[k],
            decreases klen - j,
        {
            let a = self.source.as_str().get_char(self.start + j);
            let b = kw.get_char(j);
            if a != b {
                proof {
                    assert(sub[j as int] == self.source@[self.start + j]);
                    assert(sub != kw@);
                }
                return false;
            }
            j = j + 1;
        }
        proof {
            assert(sub =~= kw@);
        }
        true
    }

    /// Classify the identifier lexeme `start..current`: one of the fixed
    /// keywords when it matches exactly, a plain identifier otherwise.
    fn identifier_type(&self) -> (t: TokenType)
        requires
            self.start <= self.current,
            self.current as int <= self.source@.len(),
        ensures
            t == crate::token::keyword_of(
                self.source@.subrange(self.start as int, self.current as int),
            ),
    {
        proof {
            reveal_strlit("and");
            reveal_strlit("class");
            reveal_strlit("else");
            reveal_strlit("false");
            reveal_strlit("for");
            reveal_strlit("fun");
            reveal_strlit("if");
            reveal_strlit("nil");
            reveal_strlit("or");
            reveal_strlit("print");
            reveal_strlit("return");
            reveal_strlit("super");
            reveal_strlit("this");
            reveal_strlit("true");
            reveal_strlit("var");
            reveal_strlit("while");
            assert("and"@ =~= seq!['a', 'n', 'd']);
            assert("class"@ =~= seq!['c', 'l', 'a', 's', 's']);
            assert("else"@ =~= seq!['e', 'l', 's', 'e']);
            assert("false"@ =~= seq!['f', 'a', 'l', 's', 'e']);
            assert("for"@ =~= seq!['f', 'o', 'r']);
            assert("fun"@ =~= seq!['f', 'u', 'n']);
            assert("if"@ =~= seq!['i', 'f']);
            assert("nil"@ =~= seq!['n', 'i', 'l']);
            assert("or"@ =~= seq!['o', 'r']);
            assert("print"@ =~= seq!['p', 'r', 'i', 'n', 't']);
            assert("return"@ =~= seq!['r', 'e', 't', 'u', 'r', 'n']);
            assert("super"@ =~= seq!['s', 'u', 'p', 'e', 'r']);
            assert("this"@ =~= seq!['t', 'h', 'i', 's']);
            assert("true"@ =~= seq!['t', 'r', 'u', 'e']);
            assert("var"@ =~= seq!['v', 'a', 'r']);
            assert("while"@ =~= seq!['w', 'h', 'i', 'l', 'e']);
        }
        if self.lexeme_is("and") {
            TokenType::And
        } else if self.lexeme_is("class") {
            TokenType::Class
        } else if self.lexeme_is("else") {
            TokenType::Else
        } else if self.lexeme_is("false") {
            TokenType::False
        } else if self.lexeme_is("for") {
            TokenType::For
        } else if self.lexeme_is("fun") {
            TokenType::Fun
        } else if self.lexeme_is("if") {
            TokenType::If
        } else if self.lexeme_is("nil") {
            TokenType::Nil
        } else if self.lexeme_is("or") {
            TokenType::Or
        } else if self.lexeme_is("print") {
            TokenType::Print
        } else if self.lexeme_is("return") {
            TokenType::Return
        } else if self.lexeme_is("super") {
            TokenType::Super
        } else if self.lexeme_is("this") {
            TokenType::This
        } else if self.lexeme_is("true") {
            TokenType::True
        } else if self.lexeme_is("var") {
            TokenType::Var
        } else if self.lexeme_is("while") {
            TokenType::While
        } else {
            TokenType::Identifier
        }
    }

    /// Scan the rest of an identifier, its first character already
    /// consumed, and classify it.
    fn identifier(&mut self) -> (t: Token)
        requires
            old(self).scan_wf(),
            old(self).start <= old(self).current,
        ensures
            ({
                let src = old(self).source@;
                let e = ident_end(src, old(self).current as int);
                &&& final(self).current as int == e
                &&& final(self).line == old(self).line
                &&& final(self).start == old(self).start
                &&& VM::same_but_scan(old(self), final(self))
                &&& t@ == crate::scan::span_out(
                    crate::token::keyword_of(src.subrange(old(self).start as int, e)),
                    old(self).start as int,
                    e,
                    old(self).line as int,
                ).token
            }),
    {
        loop
            invariant
                self.scan_wf(),
                self.line == old(self).line,
                self.start == old(self).start,
                self.start <= self.current,
                VM::same_but_scan(old(self), self),
                old(self).current <= self.current,
                ident_end(self.source@, old(self).current as int) == ident_end(
                    self.source@,
                    self.current as int,
                ),
            ensures
                self.scan_wf(),
                self.line == old(self).line,
                self.start == old(self).start,
                self.start <= self.current,
                VM::same_but_scan(old(self), self),
                ident_end(self.source@, old(self).current as int) == self.current as int,
            decreases self.source@.len() - self.current,
        {
            let c = self.peek();
            if is_ident_char_e(c) {
                proof {
                    let i = choose|i: int|
                        self.current as int <= i < self.source@.len() && self.source@[i] == '\0';
                    assert((self.current as int) < i && i < self.source@.len());
                }
                self.advance();
            } else {
                break ;
            }
        }
        let kind = self.identifier_type();
        Token::create(kind, self.start, self.current, self.line)
    }

    /// Scan and classify the next token. The produced sequence is lazy,
    /// finite and non-restartable: once the end-of-input token has been
    /// produced the sentinel is consumed, and the scanner must be
    /// re-seeded before it is asked again.
    pub fn scan_token(&mut self) -> (t: Token)
        requires
            old(self).scan_wf(),
        ensures
            ({
                let r = scan_spec(old(self).source@, old(self).current as int, old(self).line as int);
                &&& t@ == r.token
                &&& final(self).current as int == r.pos
                &&& final(self).line as int == r.line
                &&& final(self).start as int == skip_ws(
                    old(self).source@,
                    old(self).current as int,
                    old(self).line as int,
                ).0
                &&& VM::same_but_scan(old(self), final(self))
            }),
    {
        let ghost src = old(self).source@;
        let ghost c0 = old(self).current as int;
        let ghost l0 = old(self).line as int;
        self.skip_whitespace();
        proof {
            lemma_skip_ws(src, c0, l0);
            let i = choose|i: int| c0 <= i < src.len() && src[i] == '\0';
            assert((self.current as int) <= i && i < src.len());
            assert(has_sentinel(src, self.current as int));
        }
        self.start = self.current;
        let ghost p = self.current as int;
        let c = match self.advance() {
            Some(x) => x,
            None => unreached(),
        };
        proof {
            if src[p] != '\0' {
                let i = choose|i: int| p <= i < src.len() && src[i] == '\0';
                assert(p < i && i < src.len());
                assert(has_sentinel(src, p + 1));
            }
        }
        if c == '\0' {
            Token::create(TokenType::Eof, self.start, self.current, self.line)
        } else if c == '(' {
            Token::create(TokenType::LeftParen, self.start, self.current, self.line)
        } else if c == ')' {
            Token::create(TokenType::RightParen, self.start, self.current, self.line)
        } else if c == '{' {
            Token::create(TokenType::LeftBrace, self.start, self.current, self.line)
        } else if c == '}' {
            Token::create(TokenType::RightBrace, self.start, self.current, self.line)
        } else if c == ';' {
            Token::create(TokenType::Semicolon, self.start, self.current, self.line)
        } else if c == ',' {
            Token::create(TokenType::Comma, self.start, self.current, self.line)
        } else if c == '.' {
            Token::create(TokenType::Dot, self.start, self.current, self.line)
        } else if c == '-' {
            Token::create(TokenType::Minus, self.start, self.current, self.line)
        } else if c == '+' {
            Token::create(TokenType::Plus, self.start, self.current, self.line)
        } else if c == '/' {
            Token::create(TokenType::Slash, self.start, self.current, self.line)
        } else if c == '*' {
            Token::create(TokenType::Star, self.start, self.current, self.line)
        } else if c == '!' {
            let t = if self.check('=') {
                TokenType::BangEqual
            } else {
                TokenType::Bang
            };
            Token::create(t, self.start, self.current, self.line)
        } else if c == '=' {
            let t = if self.check('=') {
                TokenType::EqualEqual
            } else {
                TokenType::Equal
            };
            Token::create(t, self.start, self.current, self.line)
        } else if c == '<' {
            let t = if self.check('=') {
                TokenType::LessEqual
            } else {
                TokenType::Less
            };
            Token::create(t, self.start, self.current, self.line)
        } else if c == '>' {
            let t = if self.check('=') {
                TokenType::GreaterEqual
            } else {
                TokenType::Greater
            };
            Token::create(t, self.start, self.current, self.line)
        } else if c == '"' {
            self.string()
        } else if is_digit_e(c) {
            self.number()
        } else if is_alpha_e(c) {
            self.identifier()
        } else {
            Token::error(String::from_str("Unexpected character."), self.line)
        }
    }

    /// The compilation stage. It re-seeds the scanner, drains the token
    /// stream, reports each token on the observation channel, and stops at
    /// the end-of-input token — or at the first error token, which aborts
    /// with a compile error. It does not yet emit instructions.
    fn compile(&mut self, source: String) -> (res: Result<(), VM_Errors>)
        requires
            has_sentinel(source@, 0),
            source@.len() + 1 <= usize::MAX,
        ensures
            ({
                let comp = compile_spec(source@, 0, 1, 0);
                &&& out_view(final(self).output@) == out_view(old(self).output@) + comp.events
                &&& res == (if comp.ok {
                    Ok::<(), VM_Errors>(())
                } else {
                    Err::<(), VM_Errors>(VM_Errors::CompileError)
                })
                &&& final(self).source@ == source@
                &&& final(self).current as int == comp.pos
                &&& final(self).line as int == comp.line
                &&& final(self).chunk == old(self).chunk
                &&& final(self).stack == old(self).stack
                &&& final(self).debug == old(self).debug
                &&& final(self).ip == old(self).ip
            }),
    {
        self.source = source;
        self.current = 0;
        self.start = 0;
        self.line = 1;
        let ghost comp = compile_spec(source@, 0, 1, 0);
        let mut prev_line: usize = 0;
        let ghost mut emitted: Seq<TraceEventModel> = Seq::empty();
        loop
            invariant
                self.scan_wf(),
                self.source@ == source@,
                self.chunk == old(self).chunk,
                self.stack == old(self).stack,
                self.debug == old(self).debug,
                self.ip == old(self).ip,
                comp == compile_spec(source@, 0, 1, 0),
                out_view(self.output@) =~= out_view(old(self).output@) + emitted,
                ({
                    let cont = compile_spec(
                        source@,
                        self.current as int,
                        self.line as int,
                        prev_line as int,
                    );
                    &&& comp.ok == cont.ok
                    &&& comp.events =~= emitted + cont.events
                    &&& comp.pos == cont.pos
                    &&& comp.line == cont.line
                }),
                self.current as int <= source@.len(),
            decreases source@.len() - self.current,
        {
            let ghost c0 = self.current as int;
            let ghost l0 = self.line as int;
            let ghost prev0 = prev_line as int;
            proof {
                lemma_scan_props(source@, c0, l0);
            }
            let t = self.scan_token();
            let ghost r = scan_spec(source@, c0, l0);
            let first = t.line != prev_line;
            prev_line = t.line;
            let kind = t.variant;
            let ghost tm = t@;
            let ghost out0 = self.output@;
            let ev = TraceEvent::TokenLine { first, token: t };
            let ghost evg = ev;
            self.output.push(ev);
            proof {
                assert(tm == r.token);
                crate::trace::lemma_out_view_push(out0, evg);
                assert(evg@ == token_event(r, prev0));
                emitted = emitted + seq![token_event(r, prev0)];
                assert(out_view(self.output@) =~= out_view(old(self).output@) + emitted);
            }
            match kind {
                TokenType::Eof => {
                    proof {
                        assert(comp.events =~= emitted);
                        assert(out_view(self.output@) =~= out_view(old(self).output@)
                            + comp.events);
                        assert(out_view(self.output@) == out_view(old(self).output@)
                            + comp.events);
                    }
                    return Ok(());
                },
                TokenType::Error => {
                    proof {
                        assert(comp.events =~= emitted);
                        assert(out_view(self.output@) =~= out_view(old(self).output@)
                            + comp.events);
                        assert(out_view(self.output@) == out_view(old(self).output@)
                            + comp.events);
                    }
                    return Err(VM_Errors::CompileError);
                },
                _ => {},
            }
        }
    }

    /// Render the stack onto the observation channel, oldest-pushed value
    /// first.
    fn trace_stack(&mut self)
        ensures
            out_view(final(self).output@) == out_view(old(self).output@) + stack_events(
                old(self).stack@,
            ),
            final(self).stack == old(self).stack,
            final(self).chunk == old(self).chunk,
            final(self).debug == old(self).debug,
            final(self).ip == old(self).ip,
            final(self).source == old(self).source,
            final(self).start == old(self).start,
            final(self).current == old(self).current,
            final(self).line == old(self).line,
    {
        let n = self.stack.values.len();
        let mut k: usize = 0;
        while k < n
            invariant
                k <= n,
                n == self.stack@.len(),
                self.stack == old(self).stack,
                self.chunk == old(self).chunk,
                self.debug == old(self).debug,
                self.ip == old(self).ip,
                self.source == old(self).source,
                self.start == old(self).start,
                self.current == old(self).current,
                self.line == old(self).line,
                out_view(self.output@) =~= out_view(old(self).output@) + stack_events(
                    old(self).stack@.take(k as int),
                ),
            decreases n - k,
        {
            let v = self.stack.values[k];
            let ghost out0 = self.output@;
            let ev = TraceEvent::StackValue { value: v };
            let ghost evg = ev;
            self.output.push(ev);
            proof {
                crate::trace::lemma_out_view_push(out0, evg);
                crate::trace::lemma_stack_events_push(old(self).stack@.take(k as int), v);
                assert(old(self).stack@.take(k as int + 1) =~= old(self).stack@.take(
                    k as int,
                ).push(v));
                assert(out_view(self.output@) =~= out_view(old(self).output@) + stack_events(
                    old(self).stack@.take(k as int + 1),
                ));
            }
            k = k + 1;
        }
        proof {
            assert(old(self).stack@.take(n as int) =~= old(self).stack@);
            assert(out_view(self.output@) == out_view(old(self).output@) + stack_events(
                old(self).stack@,
            ));
        }
    }

    /// The dispatch loop over the chunk `c`, which `run` has taken out of
    /// the machine for the duration.
    fn run_loop(&mut self, c: &Chunk) -> (res: Result<(), VM_Errors>)
        ensures
            ({
                let r = run_spec(
                    c.code@,
                    c.constants@,
                    old(self).stack@,
                    old(self).ip as int,
                    old(self).debug,
                );
                &&& final(self).stack@ == r.stack
                &&& out_view(final(self).output@) == out_view(old(self).output@) + r.events
                &&& res == (if r.ok is Some {
                    Ok::<(), VM_Errors>(())
                } else {
                    Err::<(), VM_Errors>(VM_Errors::RuntimeError)
                })
                &&& final(self).chunk == old(self).chunk
                &&& final(self).debug == old(self).debug
                &&& final(self).source == old(self).source
                &&& final(self).current == old(self).current
                &&& final(self).start == old(self).start
                &&& final(self).line == old(self).line
            }),
    {
        let ghost code = c.code@;
        let ghost consts = c.constants@;
        let ghost r0 = run_spec(code, consts, old(self).stack@, old(self).ip as int, old(self).debug);
        let ghost mut emitted: Seq<TraceEventModel> = Seq::empty();
        loop
            invariant
                c.code@ == code,
                c.constants@ == consts,
                r0 == run_spec(
                    code,
                    consts,
                    old(self).stack@,
                    old(self).ip as int,
                    old(self).debug,
                ),
                self.debug == old(self).debug,
                self.chunk == old(self).chunk,
                self.source == old(self).source,
                self.current == old(self).current,
                self.start == old(self).start,
                self.line == old(self).line,
                out_view(self.output@) =~= out_view(old(self).output@) + emitted,
                ({
                    let cont = run_spec(code, consts, self.stack@, self.ip as int, self.debug);
                    &&& r0.ok == cont.ok
                    &&& r0.stack == cont.stack
                    &&& r0.events =~= emitted + cont.events
                }),
            decreases code.len() - self.ip,
        {
            let n = c.code.len();
            if self.ip >= n {
                proof {
                    assert(r0.events =~= emitted);
                    assert(out_view(self.output@) == out_view(old(self).output@) + r0.events);
                }
                return Err(VM_Errors::RuntimeError);
            }
            let ghost stack_now = self.stack@;
            let ghost ip_now = self.ip as int;
            let ghost pre_events: Seq<TraceEventModel> = if self.debug {
                stack_events(stack_now).push(
                    TraceEventModel::Instruction { entry: entry_at(code, consts, ip_now) },
                )
            } else {
                Seq::empty()
            };
            if self.debug {
                self.trace_stack();
                let step = disassemble_instruction(c, self.ip);
                let ghost out1 = self.output@;
                let ev = TraceEvent::Instruction { entry: step.0 };
                let ghost evg = ev;
                self.output.push(ev);
                proof {
                    crate::trace::lemma_out_view_push(out1, evg);
                    assert(evg@ == (TraceEventModel::Instruction {
                        entry: entry_at(code, consts, ip_now),
                    }));
                    emitted = emitted + pre_events;
                    assert(out_view(self.output@) =~= out_view(old(self).output@) + emitted);
                }
            }
            let op = c.code[self.ip];
            match op {
                OpCode::OpReturn => {
                    if self.stack.values.len() == 0 {
                        proof {
                            assert(r0.events =~= emitted);
                            assert(out_view(self.output@) == out_view(old(self).output@)
                                + r0.events);
                        }
                        return Err(VM_Errors::RuntimeError);
                    }
                    let v = self.stack.pop();
                    let ghost out1 = self.output@;
                    let ev = TraceEvent::Returned { value: v };
                    let ghost evg = ev;
                    self.output.push(ev);
                    proof {
                        crate::trace::lemma_out_view_push(out1, evg);
                        emitted = emitted + seq![TraceEventModel::Returned { value: v }];
                        assert(out_view(self.output@) =~= out_view(old(self).output@) + emitted);
                        assert(r0.events =~= emitted);
                        assert(out_view(self.output@) == out_view(old(self).output@) + r0.events);
                    }
                    return Ok(());
                },
                OpCode::OpConstant => {
                    if self.ip + 1 < n {
                        let next = c.code[self.ip + 1];
                        match next {
                            OpCode::ConstantIdx(i) => {
                                if i < c.constants.len() && self.stack.values.len() < STACK_SIZE {
                                    let v = c.get_constant(self.ip);
                                    self.stack.push(v);
                                    self.ip = self.ip + 2;
                                } else {
                                    proof {
                                        assert(r0.events =~= emitted);
                                        assert(out_view(self.output@) == out_view(
                                            old(self).output@,
                                        ) + r0.events);
                                    }
                                    return Err(VM_Errors::RuntimeError);
                                }
                            },
                            _ => {
                                proof {
                                    assert(r0.events =~= emitted);
                                    assert(out_view(self.output@) == out_view(old(self).output@)
                                        + r0.events);
                                }
                                return Err(VM_Errors::RuntimeError);
                            },
                        }
                    } else {
                        proof {
                            assert(r0.events =~= emitted);
                            assert(out_view(self.output@) == out_view(old(self).output@)
                                + r0.events);
                        }
                        return Err(VM_Errors::RuntimeError);
                    }
                },
                OpCode::ConstantIdx(_) => {
                    proof {
                        assert(r0.events =~= emitted);
                        assert(out_view(self.output@) == out_view(old(self).output@) + r0.events);
                    }
                    return Err(VM_Errors::RuntimeError);
                },
            }
        }
    }

    /// Run the bound chunk to its `Return`. Without a bound chunk there is
    /// nothing to fetch, which is reported as a runtime error rather than
    /// faulting.
    fn run(&mut self) -> (res: Result<(), VM_Errors>)
        ensures
            old(self).chunk is None ==> ({
                &&& res == Err::<(), VM_Errors>(VM_Errors::RuntimeError)
                &&& final(self).stack == old(self).stack
                &&& final(self).output == old(self).output
                &&& final(self).chunk is None
                &&& final(self).debug == old(self).debug
                &&& final(self).source == old(self).source
            }),
            old(self).chunk matches Some(ch) ==> ({
                let r = run_spec(
                    ch.code@,
                    ch.constants@,
                    old(self).stack@,
                    old(self).ip as int,
                    old(self).debug,
                );
                &&& final(self).stack@ == r.stack
                &&& out_view(final(self).output@) == out_view(old(self).output@) + r.events
                &&& res == (if r.ok is Some {
                    Ok::<(), VM_Errors>(())
                } else {
                    Err::<(), VM_Errors>(VM_Errors::RuntimeError)
                })
                &&& final(self).chunk == old(self).chunk
                &&& final(self).debug == old(self).debug
                &&& final(self).source == old(self).source
            }),
    {
        let copt = self.chunk.take();
        match copt {
            None => Err(VM_Errors::RuntimeError),
            Some(ch) => {
                let res = self.run_loop(&ch);
                self.chunk = Some(ch);
                res
            },
        }
    }

    /// Bind `c` as the machine's chunk, reset the instruction pointer, and
    /// run it.
    pub fn interpret_chunk(&mut self, c: Chunk) -> (res: Result<(), VM_Errors>)
        ensures
            ({
                let r = run_spec(c.code@, c.constants@, old(self).stack@, 0, old(self).debug);
                &&& final(self).stack@ == r.stack
                &&& out_view(final(self).output@) == out_view(old(self).output@) + r.events
                &&& res == (if r.ok is Some {
                    Ok::<(), VM_Errors>(())
                } else {
                    Err::<(), VM_Errors>(VM_Errors::RuntimeError)
                })
                &&& final(self).chunk == Some(c)
                &&& final(self).debug == old(self).debug
                &&& final(self).source == old(self).source
            }),
    {
        self.chunk = Some(c);
        self.ip = 0;
        self.run()
    }

    /// Interpret one source buffer, which must end with the sentinel
    /// terminator. The compilation stage drains and reports the tokens; a
    /// lexical error aborts it with a compile error. Since it does not yet
    /// emit instructions, no chunk is bound afterwards, and running then
    /// reports a runtime error — never success.
    pub fn interpret(&mut self, source: String) -> (res: Result<(), VM_Errors>)
        requires
            has_sentinel(source@, 0),
            source@.len() + 1 <= usize::MAX,
        ensures
            ({
                let comp = compile_spec(source@, 0, 1, 0);
                &&& out_view(final(self).output@) == out_view(old(self).output@) + comp.events
                &&& res == (if comp.ok {
                    Err::<(), VM_Errors>(VM_Errors::RuntimeError)
                } else {
                    Err::<(), VM_Errors>(VM_Errors::CompileError)
                })
                &&& final(self).chunk is None
                &&& final(self).stack == old(self).stack
                &&& final(self).debug == old(self).debug
                &&& final(self).source@ == source@
            }),
    {
        self.chunk = None;
        match self.compile(source) {
            Ok(_) => {
                self.ip = 0;
                self.run()
            },
            Err(e) => Err(e),
        }
    }
}

} // verus!
