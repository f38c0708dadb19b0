//! Names of the files and directories a document is stored in.
use vstd::prelude::*;

verus! {

/// The character of decimal digit `d`.
pub open spec fn digit_char(d: int) -> char {
    (48 + d) as char
}

/// The decimal representation of `n`, without leading zeros.
pub open spec fn decimal(n: nat) -> Seq<char>
    decreases n,
{
    if n < 10 {
        seq![digit_char(n as int)]
    } else {
        decimal(n / 10).push(digit_char((n % 10) as int))
    }
}

/// The one-character string of digit `d`.
fn digit_str(d: u32) -> (s: &'static str)
    requires
        d < 10,
    ensures
        s@ == seq![digit_char(d as int)],
{
    proof {
        reveal_strlit("0");
        reveal_strlit("1");
        reveal_strlit("2");
        reveal_strlit("3");
        reveal_strlit("4");
        reveal_strlit("5");
        reveal_strlit("6");
        reveal_strlit("7");
        reveal_strlit("8");
        reveal_strlit("9");
    }
    match d {
        0 => "0",
        1 => "1",
        2 => "2",
        3 => "3",
        4 => "4",
        5 => "5",
        6 => "6",
        7 => "7",
        8 => "8",
        _ => "9",
    }
}

/// The decimal representation of `n`.
pub fn decimal_string(n: u64) -> (s: String)
    ensures
        s@ == decimal(n as nat),
    decreases n,
{
    if n < 10 {
        String::from_str(digit_str(n as u32))
    } else {
        let mut s = decimal_string(n / 10);
        s.append(digit_str((n % 10) as u32));
        s
    }
}

/// File name of the cel of layer `layer_id` in frame `frame_num`:
/// `cel_<frame>_<layer>.bin`.
pub fn cel_filename(frame_num: u32, layer_id: u32) -> (s: String)
    ensures
        s@ == "cel_"@ + decimal(frame_num as nat) + "_"@ + decimal(layer_id as nat) + ".bin"@,
{
    let mut s = String::from_str("cel_");
    let f = decimal_string(frame_num as u64);
    s.append(f.as_str());
    s.append("_");
    let l = decimal_string(layer_id as u64);
    s.append(l.as_str());
    s.append(".bin");
    s
}

/// `s` with every space replaced by an underscore.
pub open spec fn spaces_to_underscores(s: Seq<char>) -> Seq<char> {
    s.map_values(|c: char| if c == ' ' { '_' } else { c })
}

/// What `str::to_lowercase` returns for a string: its lowercase
/// equivalent under the Unicode `Lowercase` property.
pub uninterp spec fn str_lowercase(s: Seq<char>) -> Seq<char>;

/// `s` with every space replaced by an underscore, every other character
/// kept.
fn replace_spaces(s: &str) -> (r: String)
    ensures
        r@ == spaces_to_underscores(s@),
{
    let n = s.unicode_len();
    let mut r = String::from_str("");
    proof {
        reveal_strlit("");
    }
    assert(spaces_to_underscores(s@.subrange(0, 0)) =~= Seq::<char>::empty());
    let mut i: usize = 0;
    while i < n
        invariant
            n == s@.len(),
            i <= n,
            r@ == spaces_to_underscores(s@.subrange(0, i as int)),
        decreases n - i,
    {
        let c = s.get_char(i);
        let ghost before = r@;
        if c == ' ' {
            proof {
                reveal_strlit("_");
            }
            r.append("_");
            assert(r@ =~= before.push('_'));
        } else {
            let one = s.substring_char(i, i + 1);
            assert(one@ =~= seq![c]);
            r.append(one);
            assert(r@ =~= before.push(c));
        }
        assert(s@.subrange(0, i + 1) =~= s@.subrange(0, i as int).push(c));
        assert(spaces_to_underscores(s@.subrange(0, i + 1)) =~= spaces_to_underscores(s@.subrange(0, i as int)).push(
            if c == ' ' { '_' } else { c },
        ));
        i = i + 1;
    }
    assert(s@.subrange(0, n as int) =~= s@);
    r
}

/// `str::to_lowercase`: the result is named `str_lowercase` of the input.
#[verifier::external_body]
fn lowercase(s: &str) -> (r: String)
    ensures
        r@ == str_lowercase(s@),
{
    s.to_lowercase()
}

/// A document directory name from its lower-cased stem: `<stem>.nquad`.
pub fn doc_dir_from_stem(stem: String) -> (s: String)
    ensures
        s@ == stem@ + ".nquad"@,
{
    let mut s = stem;
    s.append(".nquad");
    s
}

/// Directory name of a document: its name with spaces replaced by
/// underscores, lower-cased, then `.nquad`.
pub fn doc_dir_name(doc_name: &str) -> (s: String)
    ensures
        s@ == str_lowercase(spaces_to_underscores(doc_name@)) + ".nquad"@,
{
    let replaced = replace_spaces(doc_name);
    let lowered = lowercase(replaced.as_str());
    doc_dir_from_stem(lowered)
}

} // verus!
