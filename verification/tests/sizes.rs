use iparse::error::{Expect, Hints, Nom, ParserError, Suggest};
use iparse::span::Span;
use iparse::Code;
use std::mem::{align_of, size_of};

#[test]
pub fn sizes() {
    println!("Nom: {}", size_of::<Nom>());
    println!("Suggest: {}", size_of::<Suggest>());
    println!("Expect: {}", size_of::<Expect>());
    println!("ParserError: {}", size_of::<ParserError>());
    println!("Span: {}", size_of::<Span>());
    println!("nom Err: {}", size_of::<nom::Err<nom::error::Error<nom_locate::LocatedSpan<&str>>>>());

    println!("align Code: {}", align_of::<Code>());
    println!("align Span: {}", align_of::<Span>());
    println!("align bool: {}", align_of::<bool>());
    println!("align Vec<Hints>: {}", align_of::<Vec<Hints>>());
}
