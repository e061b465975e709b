use crate::common::{code_view, Chunk, OpCode, OpView};
use crate::parse::{parse_program, Code, Parser};
use crate::tokens::{tokens_of, Tokenizer};
use vstd::prelude::*;

verus! {

/// Source text of a program.
pub struct Source(pub String);

/// The instructions a source text compiles to: those of its statements, then
/// `Return` (tagged with line 0); `None` where the text is no program.
pub open spec fn compiled(cs: Seq<char>) -> Option<Code> {
    match parse_program(tokens_of(cs)) {
        Some(c) => Some(c.push((OpView::Return, 0int))),
        None => None,
    }
}

impl Source {
    /// Scans and parses the whole text into a chunk labelled `file_name`;
    /// `None` on the first syntax error.
    pub fn compile(&self, file_name: &str) -> (r: Option<Chunk>)
        ensures
            match compiled(self.0@) {
                Some(c) => r matches Some(chunk) && code_view(chunk.code@) == c && chunk.name@
                    == file_name@,
                None => r is None,
            },
    {
        let mut parser = Parser::new(Tokenizer::new(self));
        match parser.parse() {
            Some(code) => {
                let mut chunk = Chunk::new(file_name);
                chunk.code = code;
                let ghost before = code_view(chunk.code@);
                chunk.write(OpCode::Return, 0);
                assert(code_view(chunk.code@) =~= before.push((OpView::Return, 0int)));
                Some(chunk)
            },
            None => None,
        }
    }
}

} // verus!
