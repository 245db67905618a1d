//! Decoded instructions of the UNIVAC 1219, named by their mnemonics.
//!
//! `y` is a 12-bit address field, `u` a 12-bit constant field (sign
//! extended to 18 bits when used) and `k` a 6-bit field.
use vstd::prelude::*;
use crate::text::equals_literal;

verus! {

#[allow(non_camel_case_types)]
#[derive(Debug, Clone, Copy, PartialEq, Eq, Structural)]
pub enum Instruction {
    CMAL { y: u16 },
    CMALB { y: u16 },
    CMSK { y: u16 },
    CMSKB { y: u16 },
    SLSU { y: u16 },
    SLSUB { y: u16 },
    ENTAU { y: u16 },
    ENTAUB { y: u16 },
    ENTAL { y: u16 },
    ENTALB { y: u16 },
    ADDAL { y: u16 },
    ADDALB { y: u16 },
    SUBAL { y: u16 },
    SUBALB { y: u16 },
    ADDA { y: u16 },
    ADDAB { y: u16 },
    SUBA { y: u16 },
    SUBAB { y: u16 },
    MULAL { y: u16 },
    MULALB { y: u16 },
    DIVA { y: u16 },
    DIVAB { y: u16 },
    IRJP { y: u16 },
    IRJPB { y: u16 },
    ENTB { y: u16 },
    ENTBB { y: u16 },
    JP { y: u16 },
    JPB { y: u16 },
    ENTBK { u: u16 },
    ENTBKB { u: u16 },
    CL { y: u16 },
    CLB { y: u16 },
    STRB { y: u16 },
    STRBB { y: u16 },
    STRAL { y: u16 },
    STRALB { y: u16 },
    STRAU { y: u16 },
    STRAUB { y: u16 },
    SLSET { y: u16 },
    SLCL { y: u16 },
    SLCP { y: u16 },
    IJP { y: u16 },
    BSK { y: u16 },
    ISK { y: u16 },
    JPAUZ { y: u16 },
    JPALZ { y: u16 },
    JPAUNZ { y: u16 },
    JPALNZ { y: u16 },
    JPAUP { y: u16 },
    JPALP { y: u16 },
    JPAUNG { y: u16 },
    JPALNG { y: u16 },
    ENTALK { u: u16 },
    ADDALK { u: u16 },
    STRICR { y: u16 },
    BJP { y: u16 },
    STRADR { y: u16 },
    STRSR { y: u16 },
    RJP { y: u16 },
    IN { k: u8 },
    OUT { k: u8 },
    EXF { k: u8 },
    RTC,
    SKPIIN { k: u8 },
    SKPOIN { k: u8 },
    SKPFIN { k: u8 },
    RSHA { k: u8 },
    RSHAU { k: u8 },
    RSHAL { k: u8 },
    LSHAU { k: u8 },
    LSHAL { k: u8 },
    LSHA { k: u8 },
    RND,
    CPAL,
    CPAU,
    CPA,
    ENTICR { k: u8 },
    ENTSR { k: u8 },
    STOP { k: u8 },
    SIL,
}

/// Whether every field of the instruction fits its width: 12 bits for `y`
/// and `u`, 6 bits for `k`.
pub open spec fn instruction_wf(i: Instruction) -> bool {
    match i {
        Instruction::ENTBK { u } | Instruction::ENTBKB { u } | Instruction::ENTALK { u }
        | Instruction::ADDALK { u } => u <= 0o7777,
        Instruction::IN { k } | Instruction::OUT { k } | Instruction::EXF { k }
        | Instruction::SKPIIN { k } | Instruction::SKPOIN { k } | Instruction::SKPFIN { k }
        | Instruction::RSHA { k } | Instruction::RSHAU { k } | Instruction::RSHAL { k }
        | Instruction::LSHAU { k } | Instruction::LSHAL { k } | Instruction::LSHA { k }
        | Instruction::ENTICR { k } | Instruction::ENTSR { k } | Instruction::STOP { k } => k < 64,
        Instruction::RTC | Instruction::RND | Instruction::CPAL | Instruction::CPAU
        | Instruction::CPA | Instruction::SIL => true,
        Instruction::CMAL { y } | Instruction::CMALB { y } | Instruction::CMSK { y }
        | Instruction::CMSKB { y } | Instruction::SLSU { y } | Instruction::SLSUB { y }
        | Instruction::ENTAU { y } | Instruction::ENTAUB { y } | Instruction::ENTAL { y }
        | Instruction::ENTALB { y } | Instruction::ADDAL { y } | Instruction::ADDALB { y }
        | Instruction::SUBAL { y } | Instruction::SUBALB { y } | Instruction::ADDA { y }
        | Instruction::ADDAB { y } | Instruction::SUBA { y } | Instruction::SUBAB { y }
        | Instruction::MULAL { y } | Instruction::MULALB { y } | Instruction::DIVA { y }
        | Instruction::DIVAB { y } | Instruction::IRJP { y } | Instruction::IRJPB { y }
        | Instruction::ENTB { y } | Instruction::ENTBB { y } | Instruction::JP { y }
        | Instruction::JPB { y } | Instruction::CL { y } | Instruction::CLB { y }
        | Instruction::STRB { y } | Instruction::STRBB { y } | Instruction::STRAL { y }
        | Instruction::STRALB { y } | Instruction::STRAU { y } | Instruction::STRAUB { y }
        | Instruction::SLSET { y } | Instruction::SLCL { y } | Instruction::SLCP { y }
        | Instruction::IJP { y } | Instruction::BSK { y } | Instruction::ISK { y }
        | Instruction::JPAUZ { y } | Instruction::JPALZ { y } | Instruction::JPAUNZ { y }
        | Instruction::JPALNZ { y } | Instruction::JPAUP { y } | Instruction::JPALP { y }
        | Instruction::JPAUNG { y } | Instruction::JPALNG { y } | Instruction::STRICR { y }
        | Instruction::BJP { y } | Instruction::STRADR { y } | Instruction::STRSR { y }
        | Instruction::RJP { y } => y <= 0o7777,
    }
}

/// The instruction a mnemonic names, with its field zero.
pub open spec fn spec_parse_mnemonic(s: Seq<char>) -> Option<Instruction> {
    if false {
        None
    } else if s == "CMAL"@ {
        Some(Instruction::CMAL { y: 0 })
    } else if s == "CMALB"@ {
        Some(Instruction::CMALB { y: 0 })
    } else if s == "CMSK"@ {
        Some(Instruction::CMSK { y: 0 })
    } else if s == "CMSKB"@ {
        Some(Instruction::CMSKB { y: 0 })
    } else if s == "SLSU"@ {
        Some(Instruction::SLSU { y: 0 })
    } else if s == "SLSUB"@ {
        Some(Instruction::SLSUB { y: 0 })
    } else if s == "ENTAU"@ {
        Some(Instruction::ENTAU { y: 0 })
    } else if s == "ENTAUB"@ {
        Some(Instruction::ENTAUB { y: 0 })
    } else if s == "ENTAL"@ {
        Some(Instruction::ENTAL { y: 0 })
    } else if s == "ENTALB"@ {
        Some(Instruction::ENTALB { y: 0 })
    } else if s == "ADDAL"@ {
        Some(Instruction::ADDAL { y: 0 })
    } else if s == "ADDALB"@ {
        Some(Instruction::ADDALB { y: 0 })
    } else if s == "SUBAL"@ {
        Some(Instruction::SUBAL { y: 0 })
    } else if s == "SUBALB"@ {
        Some(Instruction::SUBALB { y: 0 })
    } else if s == "ADDA"@ {
        Some(Instruction::ADDA { y: 0 })
    } else if s == "ADDAB"@ {
        Some(Instruction::ADDAB { y: 0 })
    } else if s == "SUBA"@ {
        Some(Instruction::SUBA { y: 0 })
    } else if s == "SUBAB"@ {
        Some(Instruction::SUBAB { y: 0 })
    } else if s == "MULAL"@ {
        Some(Instruction::MULAL { y: 0 })
    } else if s == "MULALB"@ {
        Some(Instruction::MULALB { y: 0 })
    } else if s == "DIVA"@ {
        Some(Instruction::DIVA { y: 0 })
    } else if s == "DIVAB"@ {
        Some(Instruction::DIVAB { y: 0 })
    } else if s == "IRJP"@ {
        Some(Instruction::IRJP { y: 0 })
    } else if s == "IRJPB"@ {
        Some(Instruction::IRJPB { y: 0 })
    } else if s == "ENTB"@ {
        Some(Instruction::ENTB { y: 0 })
    } else if s == "ENTBB"@ {
        Some(Instruction::ENTBB { y: 0 })
    } else if s == "JP"@ {
        Some(Instruction::JP { y: 0 })
    } else if s == "JPB"@ {
        Some(Instruction::JPB { y: 0 })
    } else if s == "ENTBK"@ {
        Some(Instruction::ENTBK { u: 0 })
    } else if s == "ENTBKB"@ {
        Some(Instruction::ENTBKB { u: 0 })
    } else if s == "CL"@ {
        Some(Instruction::CL { y: 0 })
    } else if s == "CLB"@ {
        Some(Instruction::CLB { y: 0 })
    } else if s == "STRB"@ {
        Some(Instruction::STRB { y: 0 })
    } else if s == "STRBB"@ {
        Some(Instruction::STRBB { y: 0 })
    } else if s == "STRAL"@ {
        Some(Instruction::STRAL { y: 0 })
    } else if s == "STRALB"@ {
        Some(Instruction::STRALB { y: 0 })
    } else if s == "STRAU"@ {
        Some(Instruction::STRAU { y: 0 })
    } else if s == "STRAUB"@ {
        Some(Instruction::STRAUB { y: 0 })
    } else if s == "SLSET"@ {
        Some(Instruction::SLSET { y: 0 })
    } else if s == "SLCL"@ {
        Some(Instruction::SLCL { y: 0 })
    } else if s == "SLCP"@ {
        Some(Instruction::SLCP { y: 0 })
    } else if s == "IJP"@ {
        Some(Instruction::IJP { y: 0 })
    } else if s == "BSK"@ {
        Some(Instruction::BSK { y: 0 })
    } else if s == "ISK"@ {
        Some(Instruction::ISK { y: 0 })
    } else if s == "JPAUZ"@ {
        Some(Instruction::JPAUZ { y: 0 })
    } else if s == "JPALZ"@ {
        Some(Instruction::JPALZ { y: 0 })
    } else if s == "JPAUNZ"@ {
        Some(Instruction::JPAUNZ { y: 0 })
    } else if s == "JPALNZ"@ {
        Some(Instruction::JPALNZ { y: 0 })
    } else if s == "JPAUP"@ {
        Some(Instruction::JPAUP { y: 0 })
    } else if s == "JPALP"@ {
        Some(Instruction::JPALP { y: 0 })
    } else if s == "JPAUNG"@ {
        Some(Instruction::JPAUNG { y: 0 })
    } else if s == "JPALNG"@ {
        Some(Instruction::JPALNG { y: 0 })
    } else if s == "ENTALK"@ {
        Some(Instruction::ENTALK { u: 0 })
    } else if s == "ADDALK"@ {
        Some(Instruction::ADDALK { u: 0 })
    } else if s == "STRICR"@ {
        Some(Instruction::STRICR { y: 0 })
    } else if s == "BJP"@ {
        Some(Instruction::BJP { y: 0 })
    } else if s == "STRADR"@ {
        Some(Instruction::STRADR { y: 0 })
    } else if s == "STRSR"@ {
        Some(Instruction::STRSR { y: 0 })
    } else if s == "RJP"@ {
        Some(Instruction::RJP { y: 0 })
    } else if s == "IN"@ {
        Some(Instruction::IN { k: 0 })
    } else if s == "OUT"@ {
        Some(Instruction::OUT { k: 0 })
    } else if s == "EXF"@ {
        Some(Instruction::EXF { k: 0 })
    } else if s == "RTC"@ {
        Some(Instruction::RTC)
    } else if s == "SKPIIN"@ {
        Some(Instruction::SKPIIN { k: 0 })
    } else if s == "SKPOIN"@ {
        Some(Instruction::SKPOIN { k: 0 })
    } else if s == "SKPFIN"@ {
        Some(Instruction::SKPFIN { k: 0 })
    } else if s == "RSHA"@ {
        Some(Instruction::RSHA { k: 0 })
    } else if s == "RSHAU"@ {
        Some(Instruction::RSHAU { k: 0 })
    } else if s == "RSHAL"@ {
        Some(Instruction::RSHAL { k: 0 })
    } else if s == "LSHAU"@ {
        Some(Instruction::LSHAU { k: 0 })
    } else if s == "LSHAL"@ {
        Some(Instruction::LSHAL { k: 0 })
    } else if s == "LSHA"@ {
        Some(Instruction::LSHA { k: 0 })
    } else if s == "RND"@ {
        Some(Instruction::RND)
    } else if s == "CPAL"@ {
        Some(Instruction::CPAL)
    } else if s == "CPAU"@ {
        Some(Instruction::CPAU)
    } else if s == "CPA"@ {
        Some(Instruction::CPA)
    } else if s == "ENTICR"@ {
        Some(Instruction::ENTICR { k: 0 })
    } else if s == "ENTSR"@ {
        Some(Instruction::ENTSR { k: 0 })
    } else if s == "STOP"@ {
        Some(Instruction::STOP { k: 0 })
    } else if s == "SIL"@ {
        Some(Instruction::SIL)
    } else {
        None
    }
}

/// The instruction that the mnemonic in `s[lo..hi]` names, with its field
/// zero; `None` when it names none.
pub fn parse_mnemonic(s: &Vec<char>, lo: usize, hi: usize) -> (r: Option<Instruction>)
    requires
        lo <= hi <= s@.len(),
    ensures
        r == spec_parse_mnemonic(s@.subrange(lo as int, hi as int)),
        r matches Some(i) ==> instruction_wf(i),
{
    if false {
        None
    } else if equals_literal(s, lo, hi, "CMAL") {
        Some(Instruction::CMAL { y: 0 })
    } else if equals_literal(s, lo, hi, "CMALB") {
        Some(Instruction::CMALB { y: 0 })
    } else if equals_literal(s, lo, hi, "CMSK") {
        Some(Instruction::CMSK { y: 0 })
    } else if equals_literal(s, lo, hi, "CMSKB") {
        Some(Instruction::CMSKB { y: 0 })
    } else if equals_literal(s, lo, hi, "SLSU") {
        Some(Instruction::SLSU { y: 0 })
    } else if equals_literal(s, lo, hi, "SLSUB") {
        Some(Instruction::SLSUB { y: 0 })
    } else if equals_literal(s, lo, hi, "ENTAU") {
        Some(Instruction::ENTAU { y: 0 })
    } else if equals_literal(s, lo, hi, "ENTAUB") {
        Some(Instruction::ENTAUB { y: 0 })
    } else if equals_literal(s, lo, hi, "ENTAL") {
        Some(Instruction::ENTAL { y: 0 })
    } else if equals_literal(s, lo, hi, "ENTALB") {
        Some(Instruction::ENTALB { y: 0 })
    } else if equals_literal(s, lo, hi, "ADDAL") {
        Some(Instruction::ADDAL { y: 0 })
    } else if equals_literal(s, lo, hi, "ADDALB") {
        Some(Instruction::ADDALB { y: 0 })
    } else if equals_literal(s, lo, hi, "SUBAL") {
        Some(Instruction::SUBAL { y: 0 })
    } else if equals_literal(s, lo, hi, "SUBALB") {
        Some(Instruction::SUBALB { y: 0 })
    } else if equals_literal(s, lo, hi, "ADDA") {
        Some(Instruction::ADDA { y: 0 })
    } else if equals_literal(s, lo, hi, "ADDAB") {
        Some(Instruction::ADDAB { y: 0 })
    } else if equals_literal(s, lo, hi, "SUBA") {
        Some(Instruction::SUBA { y: 0 })
    } else if equals_literal(s, lo, hi, "SUBAB") {
        Some(Instruction::SUBAB { y: 0 })
    } else if equals_literal(s, lo, hi, "MULAL") {
        Some(Instruction::MULAL { y: 0 })
    } else if equals_literal(s, lo, hi, "MULALB") {
        Some(Instruction::MULALB { y: 0 })
    } else if equals_literal(s, lo, hi, "DIVA") {
        Some(Instruction::DIVA { y: 0 })
    } else if equals_literal(s, lo, hi, "DIVAB") {
        Some(Instruction::DIVAB { y: 0 })
    } else if equals_literal(s, lo, hi, "IRJP") {
        Some(Instruction::IRJP { y: 0 })
    } else if equals_literal(s, lo, hi, "IRJPB") {
        Some(Instruction::IRJPB { y: 0 })
    } else if equals_literal(s, lo, hi, "ENTB") {
        Some(Instruction::ENTB { y: 0 })
    } else if equals_literal(s, lo, hi, "ENTBB") {
        Some(Instruction::ENTBB { y: 0 })
    } else if equals_literal(s, lo, hi, "JP") {
        Some(Instruction::JP { y: 0 })
    } else if equals_literal(s, lo, hi, "JPB") {
        Some(Instruction::JPB { y: 0 })
    } else if equals_literal(s, lo, hi, "ENTBK") {
        Some(Instruction::ENTBK { u: 0 })
    } else if equals_literal(s, lo, hi, "ENTBKB") {
        Some(Instruction::ENTBKB { u: 0 })
    } else if equals_literal(s, lo, hi, "CL") {
        Some(Instruction::CL { y: 0 })
    } else if equals_literal(s, lo, hi, "CLB") {
        Some(Instruction::CLB { y: 0 })
    } else if equals_literal(s, lo, hi, "STRB") {
        Some(Instruction::STRB { y: 0 })
    } else if equals_literal(s, lo, hi, "STRBB") {
        Some(Instruction::STRBB { y: 0 })
    } else if equals_literal(s, lo, hi, "STRAL") {
        Some(Instruction::STRAL { y: 0 })
    } else if equals_literal(s, lo, hi, "STRALB") {
        Some(Instruction::STRALB { y: 0 })
    } else if equals_literal(s, lo, hi, "STRAU") {
        Some(Instruction::STRAU { y: 0 })
    } else if equals_literal(s, lo, hi, "STRAUB") {
        Some(Instruction::STRAUB { y: 0 })
    } else if equals_literal(s, lo, hi, "SLSET") {
        Some(Instruction::SLSET { y: 0 })
    } else if equals_literal(s, lo, hi, "SLCL") {
        Some(Instruction::SLCL { y: 0 })
    } else if equals_literal(s, lo, hi, "SLCP") {
        Some(Instruction::SLCP { y: 0 })
    } else if equals_literal(s, lo, hi, "IJP") {
        Some(Instruction::IJP { y: 0 })
    } else if equals_literal(s, lo, hi, "BSK") {
        Some(Instruction::BSK { y: 0 })
    } else if equals_literal(s, lo, hi, "ISK") {
        Some(Instruction::ISK { y: 0 })
    } else if equals_literal(s, lo, hi, "JPAUZ") {
        Some(Instruction::JPAUZ { y: 0 })
    } else if equals_literal(s, lo, hi, "JPALZ") {
        Some(Instruction::JPALZ { y: 0 })
    } else if equals_literal(s, lo, hi, "JPAUNZ") {
        Some(Instruction::JPAUNZ { y: 0 })
    } else if equals_literal(s, lo, hi, "JPALNZ") {
        Some(Instruction::JPALNZ { y: 0 })
    } else if equals_literal(s, lo, hi, "JPAUP") {
        Some(Instruction::JPAUP { y: 0 })
    } else if equals_literal(s, lo, hi, "JPALP") {
        Some(Instruction::JPALP { y: 0 })
    } else if equals_literal(s, lo, hi, "JPAUNG") {
        Some(Instruction::JPAUNG { y: 0 })
    } else if equals_literal(s, lo, hi, "JPALNG") {
        Some(Instruction::JPALNG { y: 0 })
    } else if equals_literal(s, lo, hi, "ENTALK") {
        Some(Instruction::ENTALK { u: 0 })
    } else if equals_literal(s, lo, hi, "ADDALK") {
        Some(Instruction::ADDALK { u: 0 })
    } else if equals_literal(s, lo, hi, "STRICR") {
        Some(Instruction::STRICR { y: 0 })
    } else if equals_literal(s, lo, hi, "BJP") {
        Some(Instruction::BJP { y: 0 })
    } else if equals_literal(s, lo, hi, "STRADR") {
        Some(Instruction::STRADR { y: 0 })
    } else if equals_literal(s, lo, hi, "STRSR") {
        Some(Instruction::STRSR { y: 0 })
    } else if equals_literal(s, lo, hi, "RJP") {
        Some(Instruction::RJP { y: 0 })
    } else if equals_literal(s, lo, hi, "IN") {
        Some(Instruction::IN { k: 0 })
    } else if equals_literal(s, lo, hi, "OUT") {
        Some(Instruction::OUT { k: 0 })
    } else if equals_literal(s, lo, hi, "EXF") {
        Some(Instruction::EXF { k: 0 })
    } else if equals_literal(s, lo, hi, "RTC") {
        Some(Instruction::RTC)
    } else if equals_literal(s, lo, hi, "SKPIIN") {
        Some(Instruction::SKPIIN { k: 0 })
    } else if equals_literal(s, lo, hi, "SKPOIN") {
        Some(Instruction::SKPOIN { k: 0 })
    } else if equals_literal(s, lo, hi, "SKPFIN") {
        Some(Instruction::SKPFIN { k: 0 })
    } else if equals_literal(s, lo, hi, "RSHA") {
        Some(Instruction::RSHA { k: 0 })
    } else if equals_literal(s, lo, hi, "RSHAU") {
        Some(Instruction::RSHAU { k: 0 })
    } else if equals_literal(s, lo, hi, "RSHAL") {
        Some(Instruction::RSHAL { k: 0 })
    } else if equals_literal(s, lo, hi, "LSHAU") {
        Some(Instruction::LSHAU { k: 0 })
    } else if equals_literal(s, lo, hi, "LSHAL") {
        Some(Instruction::LSHAL { k: 0 })
    } else if equals_literal(s, lo, hi, "LSHA") {
        Some(Instruction::LSHA { k: 0 })
    } else if equals_literal(s, lo, hi, "RND") {
        Some(Instruction::RND)
    } else if equals_literal(s, lo, hi, "CPAL") {
        Some(Instruction::CPAL)
    } else if equals_literal(s, lo, hi, "CPAU") {
        Some(Instruction::CPAU)
    } else if equals_literal(s, lo, hi, "CPA") {
        Some(Instruction::CPA)
    } else if equals_literal(s, lo, hi, "ENTICR") {
        Some(Instruction::ENTICR { k: 0 })
    } else if equals_literal(s, lo, hi, "ENTSR") {
        Some(Instruction::ENTSR { k: 0 })
    } else if equals_literal(s, lo, hi, "STOP") {
        Some(Instruction::STOP { k: 0 })
    } else if equals_literal(s, lo, hi, "SIL") {
        Some(Instruction::SIL)
    } else {
        None
    }
}

} // verus!
