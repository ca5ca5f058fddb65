//! The field delimiters a table may use.
use vstd::prelude::*;

verus! {

/// One of the four delimiters a table may be split on.
#[derive(Debug, Clone, Copy, PartialEq, Eq, Structural)]
pub enum Delimiter {
    Comma,
    Pipe,
    Tab,
    SemiColon,
}

/// The text given for a delimiter names none of the four.
#[derive(Debug, Clone, Copy, PartialEq, Eq, Structural)]
pub enum DelimiterParseError {
    InvalidDelimiter,
}

impl Delimiter {
    /// `,`
    pub const COMMA: u8 = 44;

    /// `|`
    pub const PIPE: u8 = 124;

    /// A tab.
    pub const TAB: u8 = 9;

    /// `;`
    pub const SEMICOLON: u8 = 59;

    /// The character that separates fields.
    pub open spec fn spec_char(self) -> char {
        match self {
            Delimiter::Comma => ',',
            Delimiter::Pipe => '|',
            Delimiter::Tab => '\t',
            Delimiter::SemiColon => ';',
        }
    }

    /// The same character as a byte.
    pub open spec fn spec_byte(self) -> u8 {
        self.spec_char() as u8
    }

    /// The delimiter that a text names, if it names one.
    pub open spec fn spec_parse(s: Seq<char>) -> Option<Delimiter> {
        if s.len() != 1 {
            None
        } else if s[0] == ',' {
            Some(Delimiter::Comma)
        } else if s[0] == '|' {
            Some(Delimiter::Pipe)
        } else if s[0] == '\t' {
            Some(Delimiter::Tab)
        } else if s[0] == ';' {
            Some(Delimiter::SemiColon)
        } else {
            None
        }
    }

    pub fn as_char(&self) -> (r: char)
        ensures
            r == self.spec_char(),
    {
        match self {
            Delimiter::Comma => ',',
            Delimiter::Pipe => '|',
            Delimiter::Tab => '\t',
            Delimiter::SemiColon => ';',
        }
    }

    pub fn to_byte(&self) -> (r: u8)
        ensures
            r == self.spec_byte(),
    {
        match self {
            Delimiter::Comma => Delimiter::COMMA,
            Delimiter::Pipe => Delimiter::PIPE,
            Delimiter::Tab => Delimiter::TAB,
            Delimiter::SemiColon => Delimiter::SEMICOLON,
        }
    }

    /// The delimiter as a one-character text.
    pub fn to_string(&self) -> (r: String)
        ensures
            r@ == seq![self.spec_char()],
    {
        let r = match self {
            Delimiter::Comma => {
                proof {
                    reveal_strlit(",");
                }
                String::from_str(",")
            },
            Delimiter::Pipe => {
                proof {
                    reveal_strlit("|");
                }
                String::from_str("|")
            },
            Delimiter::Tab => {
                proof {
                    reveal_strlit("\t");
                }
                String::from_str("\t")
            },
            Delimiter::SemiColon => {
                proof {
                    reveal_strlit(";");
                }
                String::from_str(";")
            },
        };
        assert(r@ =~= seq![self.spec_char()]);
        r
    }

    /// Reads a delimiter from its one-character text.
    pub fn parse(s: &str) -> (r: Result<Delimiter, DelimiterParseError>)
        ensures
            r matches Ok(d) ==> Delimiter::spec_parse(s@) == Some(d),
            r is Err <==> Delimiter::spec_parse(s@) is None,
    {
        if s.unicode_len() != 1 {
            return Err(DelimiterParseError::InvalidDelimiter);
        }
        let c = s.get_char(0);
        if c == ',' {
            Ok(Delimiter::Comma)
        } else if c == '|' {
            Ok(Delimiter::Pipe)
        } else if c == '\t' {
            Ok(Delimiter::Tab)
        } else if c == ';' {
            Ok(Delimiter::SemiColon)
        } else {
            Err(DelimiterParseError::InvalidDelimiter)
        }
    }
}

impl std::str::FromStr for Delimiter {
    type Err = DelimiterParseError;

    fn from_str(s: &str) -> (r: Result<Delimiter, DelimiterParseError>)
        ensures
            r matches Ok(d) ==> Delimiter::spec_parse(s@) == Some(d),
            r is Err <==> Delimiter::spec_parse(s@) is None,
    {
        Delimiter::parse(s)
    }
}

impl From<Delimiter> for u8 {
    fn from(d: Delimiter) -> (r: u8)
        ensures
            r == d.spec_byte(),
    {
        d.to_byte()
    }
}

impl vstd::std_specs::convert::FromSpecImpl<Delimiter> for u8 {
    open spec fn obeys_from_spec() -> bool {
        true
    }

    open spec fn from_spec(d: Delimiter) -> u8 {
        d.spec_byte()
    }
}

} // verus!
