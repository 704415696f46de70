//! Conversion of Mac OS Roman encoded text to Unicode.

use vstd::prelude::*;
use vstd::slice::slice_index_get;

verus! {

/// The Unicode character denoted by a Mac OS Roman byte, or `None` where
/// the byte is not part of the Mac OS Roman character set.
pub open spec fn spec_macroman_to_char(macroman: u8) -> Option<char> {
    if macroman < 128 {
        Some(macroman as char)
    } else {
        match macroman {
            128u8 => Some('Ä'),  // A dieresis
            129u8 => Some('Å'),  // A ring
            130u8 => Some('Ç'),  // C cedilla
            131u8 => Some('É'),  // E acute
            132u8 => Some('Ñ'),  // N tilde
            133u8 => Some('Ö'),  // O dieresis
            134u8 => Some('Ü'),  // U dieresis
            135u8 => Some('á'),  // a acute
            136u8 => Some('à'),  // a grave
            137u8 => Some('â'),  // a circumflex
            138u8 => Some('ä'),  // a dieresis
            139u8 => Some('ã'),  // a tilde
            140u8 => Some('å'),  // a ring
            141u8 => Some('ç'),  // c cedilla
            142u8 => Some('é'),  // e acute
            143u8 => Some('è'),  // e grave
            144u8 => Some('ê'),  // e circumflex
            145u8 => Some('ë'),  // e dieresis
            146u8 => Some('í'),  // i acute
            147u8 => Some('ì'),  // i grave
            148u8 => Some('î'),  // i circumflex
            149u8 => Some('ï'),  // i dieresis
            150u8 => Some('ñ'),  // n tilde
            151u8 => Some('ó'),  // o acute
            152u8 => Some('ò'),  // o grave
            153u8 => Some('ô'),  // o circumflex
            154u8 => Some('ö'),  // o dieresis
            155u8 => Some('õ'),  // o tilde
            156u8 => Some('ú'),  // u acute
            157u8 => Some('ù'),  // u grave
            158u8 => Some('û'),  // u circumflex
            159u8 => Some('ü'),  // u dieresis
            160u8 => Some('†'),  // dagger
            161u8 => Some('°'),  // degree
            162u8 => Some('¢'),  // cent
            163u8 => Some('£'),  // sterling
            164u8 => Some('§'),  // section
            165u8 => Some('•'),  // bullet
            166u8 => Some('¶'),  // paragraph
            167u8 => Some('ß'),  // German double s
            168u8 => Some('®'),  // registered
            169u8 => Some('©'),  // copyright
            170u8 => Some('™'),  // trademark
            171u8 => Some('´'),  // acute
            172u8 => Some('¨'),  // diaeresis
            174u8 => Some('Æ'),  // AE
            175u8 => Some('Ø'),  // O slash
            177u8 => Some('±'),  // plusminus
            180u8 => Some('¥'),  // yen
            181u8 => Some('µ'),  // micro
            187u8 => Some('ª'),  // ordfeminine
            188u8 => Some('º'),  // ordmasculine
            190u8 => Some('æ'),  // ae
            191u8 => Some('ø'),  // o slash
            192u8 => Some('¿'),  // question down
            193u8 => Some('¡'),  // exclamation down
            194u8 => Some('¬'),  // not
            196u8 => Some('ƒ'),  // florin
            199u8 => Some('«'),  // left guille
            200u8 => Some('»'),  // right guille
            201u8 => Some('…'),  // ellipsis
            202u8 => Some(' '),  // non-breaking space
            203u8 => Some('À'),  // A grave
            204u8 => Some('Ã'),  // A tilde
            205u8 => Some('Õ'),  // O tilde
            206u8 => Some('Œ'),  // OE
            207u8 => Some('œ'),  // oe
            208u8 => Some('–'),  // endash
            209u8 => Some('—'),  // emdash
            210u8 => Some('“'),  // ldquo
            211u8 => Some('”'),  // rdquo
            212u8 => Some('‘'),  // lsquo
            213u8 => Some('’'),  // rsquo
            214u8 => Some('÷'),  // divide
            216u8 => Some('ÿ'),  // y dieresis
            217u8 => Some('Ÿ'),  // Y dieresis
            218u8 => Some('⁄'),  // fraction
            219u8 => Some('¤'),  // currency
            220u8 => Some('‹'),  // left single guille
            221u8 => Some('›'),  // right single guille
            222u8 => Some('ﬁ'),  // fi
            223u8 => Some('ﬂ'),  // fl
            224u8 => Some('‡'),  // double dagger
            225u8 => Some('·'),  // middle dot
            226u8 => Some('‚'),  // single quote base
            227u8 => Some('„'),  // double quote base
            228u8 => Some('‰'),  // perthousand
            229u8 => Some('Â'),  // A circumflex
            230u8 => Some('Ê'),  // E circumflex
            231u8 => Some('Á'),  // A acute
            232u8 => Some('Ë'),  // E dieresis
            233u8 => Some('È'),  // E grave
            234u8 => Some('Í'),  // I acute
            235u8 => Some('Î'),  // I circumflex
            236u8 => Some('Ï'),  // I dieresis
            237u8 => Some('Ì'),  // I grave
            238u8 => Some('Ó'),  // O acute
            239u8 => Some('Ô'),  // O circumflex
            241u8 => Some('Ò'),  // O grave
            242u8 => Some('Ú'),  // U acute
            243u8 => Some('Û'),  // U circumflex
            244u8 => Some('Ù'),  // U grave
            245u8 => Some('ı'),  // dot-less i
            246u8 => Some('^'),  // circumflex
            247u8 => Some('˜'),  // tilde
            248u8 => Some('¯'),  // macron
            249u8 => Some('˘'),  // breve
            250u8 => Some('˙'),  // dot accent
            251u8 => Some('˚'),  // ring
            252u8 => Some('¸'),  // cedilla
            253u8 => Some('˝'),  // Hungarian umlaut (double acute accent)
            254u8 => Some('˛'),  // ogonek
            255u8 => Some('ˇ'),  // caron
            _ => None,
        }
    }
}

/// The character a Mac OS Roman byte decodes to, with U+FFFD standing in
/// for bytes outside the character set.
pub open spec fn spec_macroman_or_replacement(macroman: u8) -> char {
    match spec_macroman_to_char(macroman) {
        Some(c) => c,
        None => '\u{FFFD}',
    }
}

/// The character sequence that a Mac OS Roman byte string decodes to.
pub open spec fn spec_from_macroman(data: Seq<u8>) -> Seq<char> {
    data.map_values(|b: u8| spec_macroman_or_replacement(b))
}

/// Converts a Mac OS Roman character to a Unicode `char`.
///
/// Returns `None` if the character is not part of the Mac OS Roman
/// character set.
pub fn macroman_to_char(macroman: u8) -> (r: Option<char>)
    ensures
        r == spec_macroman_to_char(macroman),
{
    if macroman < 128 {
        Some(macroman as char)
    } else {
        match macroman {
            128u8 => Some('Ä'),  // A dieresis
            129u8 => Some('Å'),  // A ring
            130u8 => Some('Ç'),  // C cedilla
            131u8 => Some('É'),  // E acute
            132u8 => Some('Ñ'),  // N tilde
            133u8 => Some('Ö'),  // O dieresis
            134u8 => Some('Ü'),  // U dieresis
            135u8 => Some('á'),  // a acute
            136u8 => Some('à'),  // a grave
            137u8 => Some('â'),  // a circumflex
            138u8 => Some('ä'),  // a dieresis
            139u8 => Some('ã'),  // a tilde
            140u8 => Some('å'),  // a ring
            141u8 => Some('ç'),  // c cedilla
            142u8 => Some('é'),  // e acute
            143u8 => Some('è'),  // e grave
            144u8 => Some('ê'),  // e circumflex
            145u8 => Some('ë'),  // e dieresis
            146u8 => Some('í'),  // i acute
            147u8 => Some('ì'),  // i grave
            148u8 => Some('î'),  // i circumflex
            149u8 => Some('ï'),  // i dieresis
            150u8 => Some('ñ'),  // n tilde
            151u8 => Some('ó'),  // o acute
            152u8 => Some('ò'),  // o grave
            153u8 => Some('ô'),  // o circumflex
            154u8 => Some('ö'),  // o dieresis
            155u8 => Some('õ'),  // o tilde
            156u8 => Some('ú'),  // u acute
            157u8 => Some('ù'),  // u grave
            158u8 => Some('û'),  // u circumflex
            159u8 => Some('ü'),  // u dieresis
            160u8 => Some('†'),  // dagger
            161u8 => Some('°'),  // degree
            162u8 => Some('¢'),  // cent
            163u8 => Some('£'),  // sterling
            164u8 => Some('§'),  // section
            165u8 => Some('•'),  // bullet
            166u8 => Some('¶'),  // paragraph
            167u8 => Some('ß'),  // German double s
            168u8 => Some('®'),  // registered
            169u8 => Some('©'),  // copyright
            170u8 => Some('™'),  // trademark
            171u8 => Some('´'),  // acute
            172u8 => Some('¨'),  // diaeresis
            174u8 => Some('Æ'),  // AE
            175u8 => Some('Ø'),  // O slash
            177u8 => Some('±'),  // plusminus
            180u8 => Some('¥'),  // yen
            181u8 => Some('µ'),  // micro
            187u8 => Some('ª'),  // ordfeminine
            188u8 => Some('º'),  // ordmasculine
            190u8 => Some('æ'),  // ae
            191u8 => Some('ø'),  // o slash
            192u8 => Some('¿'),  // question down
            193u8 => Some('¡'),  // exclamation down
            194u8 => Some('¬'),  // not
            196u8 => Some('ƒ'),  // florin
            199u8 => Some('«'),  // left guille
            200u8 => Some('»'),  // right guille
            201u8 => Some('…'),  // ellipsis
            202u8 => Some(' '),  // non-breaking space
            203u8 => Some('À'),  // A grave
            204u8 => Some('Ã'),  // A tilde
            205u8 => Some('Õ'),  // O tilde
            206u8 => Some('Œ'),  // OE
            207u8 => Some('œ'),  // oe
            208u8 => Some('–'),  // endash
            209u8 => Some('—'),  // emdash
            210u8 => Some('“'),  // ldquo
            211u8 => Some('”'),  // rdquo
            212u8 => Some('‘'),  // lsquo
            213u8 => Some('’'),  // rsquo
            214u8 => Some('÷'),  // divide
            216u8 => Some('ÿ'),  // y dieresis
            217u8 => Some('Ÿ'),  // Y dieresis
            218u8 => Some('⁄'),  // fraction
            219u8 => Some('¤'),  // currency
            220u8 => Some('‹'),  // left single guille
            221u8 => Some('›'),  // right single guille
            222u8 => Some('ﬁ'),  // fi
            223u8 => Some('ﬂ'),  // fl
            224u8 => Some('‡'),  // double dagger
            225u8 => Some('·'),  // middle dot
            226u8 => Some('‚'),  // single quote base
            227u8 => Some('„'),  // double quote base
            228u8 => Some('‰'),  // perthousand
            229u8 => Some('Â'),  // A circumflex
            230u8 => Some('Ê'),  // E circumflex
            231u8 => Some('Á'),  // A acute
            232u8 => Some('Ë'),  // E dieresis
            233u8 => Some('È'),  // E grave
            234u8 => Some('Í'),  // I acute
            235u8 => Some('Î'),  // I circumflex
            236u8 => Some('Ï'),  // I dieresis
            237u8 => Some('Ì'),  // I grave
            238u8 => Some('Ó'),  // O acute
            239u8 => Some('Ô'),  // O circumflex
            241u8 => Some('Ò'),  // O grave
            242u8 => Some('Ú'),  // U acute
            243u8 => Some('Û'),  // U circumflex
            244u8 => Some('Ù'),  // U grave
            245u8 => Some('ı'),  // dot-less i
            246u8 => Some('^'),  // circumflex
            247u8 => Some('˜'),  // tilde
            248u8 => Some('¯'),  // macron
            249u8 => Some('˘'),  // breve
            250u8 => Some('˙'),  // dot accent
            251u8 => Some('˚'),  // ring
            252u8 => Some('¸'),  // cedilla
            253u8 => Some('˝'),  // Hungarian umlaut (double acute accent)
            254u8 => Some('˛'),  // ogonek
            255u8 => Some('ˇ'),  // caron
            _ => None,
        }
    }
}

/// Relies on String::push: appends exactly the given character to the
/// string's character content.
#[verifier::external_body]
pub(crate) fn push_char(s: &mut String, c: char)
    ensures
        final(s)@ == old(s)@.push(c),
{
    s.push(c);
}

/// Decoding a value from Mac OS Roman bytes.
pub trait FromMacRoman: Sized {
    /// The decoded value's character content.
    spec fn macroman_chars(&self) -> Seq<char>;

    /// Decodes MacRoman bytes, each byte outside the character set becoming
    /// U+FFFD.
    fn from_macroman(data: &[u8]) -> (r: Self)
        ensures
            r.macroman_chars() == spec_from_macroman(data@),
    ;
}

impl FromMacRoman for String {
    open spec fn macroman_chars(&self) -> Seq<char> {
        self@
    }

    fn from_macroman(data: &[u8]) -> (r: String) {
        let mut out: String = String::new();
        let n: usize = data.len();
        let mut i: usize = 0;
        while i < n
            invariant
                0 <= i <= n,
                n == data@.len(),
                out@ == spec_from_macroman(data@.take(i as int)),
            decreases n - i,
        {
            let b: u8 = *slice_index_get(data, i);
            let c: char = match macroman_to_char(b) {
                Some(c) => c,
                None => '\u{FFFD}',
            };
            push_char(&mut out, c);
            i = i + 1;
            proof {
                assert(data@.take(i as int) =~= data@.take(i - 1).push(data@[i - 1]));
                assert(out@ =~= spec_from_macroman(data@.take(i as int)));
            }
        }
        proof {
            assert(data@.take(n as int) =~= data@);
        }
        out
    }
}

} // verus!
