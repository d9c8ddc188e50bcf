//! Chat messages.
use crate::wire::{be16, law_be16, put_u16};
use vstd::prelude::*;
use vstd::utf8::encode_utf8;

verus! {

/// A text with every run of spaces made a single space.
pub open spec fn squeezed(text: Seq<char>) -> Seq<char>
    decreases text.len(),
{
    if text.len() == 0 {
        seq![]
    } else if text.last() == ' ' && text.len() > 1 && text[text.len() - 2] == ' ' {
        squeezed(text.drop_last())
    } else {
        squeezed(text.drop_last()).push(text.last())
    }
}

/// A chat message as players see it: the name of the sender in angle brackets, then the message
/// with its runs of spaces squeezed.
pub open spec fn chat_line(user: Seq<char>, message: Seq<char>) -> Seq<char> {
    seq!['<'] + user + seq!['>', ' '] + squeezed(message)
}

/// The bytes of the packet with a line of chat. The length is stored with 16 bits.
pub open spec fn chat_bytes(line: Seq<char>) -> Seq<u8> {
    seq![3u8] + be16(encode_utf8(line).len() as usize as u16) + encode_utf8(line)
}

/// `regex::Regex::replace_all` for the expression that stands for one or more spaces, with a
/// single space as the replacement.
#[verifier::external_body]
fn replace_all(pattern: &str, text: &str, replacement: &str) -> (r: String)
    requires
        pattern@ == "( )+"@,
        replacement@ == " "@,
    ensures
        r@ == squeezed(text@),
{
    regex::Regex::new(pattern).unwrap().replace_all(text, replacement).into_owned()
}

/// Makes the line of chat for a message.
pub fn format_chat(user: &str, message: &str) -> (r: String)
    ensures
        r@ == chat_line(user@, message@),
        r@ == seq!['<'] + user@ + seq!['>', ' '] + squeezed(message@),
{
    let mut line: String = String::new();
    line.push('<');
    line.append(user);
    line.push('>');
    line.push(' ');
    line.append(replace_all("( )+", message, " ").as_str());
    assert(line@ =~= chat_line(user@, message@));
    line
}

/// Makes the packet for a message that a player sends.
pub fn chat_packet(user: &str, message: &str) -> (r: Vec<u8>)
    ensures
        r@ == chat_bytes(chat_line(user@, message@)),
        ({
            let text = encode_utf8(seq!['<'] + user@ + seq!['>', ' '] + squeezed(message@));
            r@ == seq![3u8] + be16(text.len() as usize as u16) + text
        }),
{
    let line: String = format_chat(user, message);
    let text: &str = line.as_str();
    let mut bytes: Vec<u8> = Vec::new();
    bytes.push(3);
    put_u16(&mut bytes, text.len() as u16);
    bytes.extend_from_slice(text.as_bytes());
    assert(bytes@ =~= chat_bytes(line@));
    bytes
}

/// A squeezed text has no two spaces in a row, and ends in a space only if the text does.
proof fn lemma_squeezed(text: Seq<char>)
    ensures
        squeezed(text).len() > 0 <==> text.len() > 0,
        text.len() > 0 ==> squeezed(text).last() == text.last(),
        forall|i: int|
            0 <= i < squeezed(text).len() - 1 ==> !(#[trigger] squeezed(text)[i] == ' '
                && squeezed(text)[i + 1] == ' '),
    decreases text.len(),
{
    if text.len() > 0 {
        lemma_squeezed(text.drop_last());
    }
}

/// No chat message is shown with two spaces in a row.
pub proof fn law_squeezed_has_no_double_space(text: Seq<char>, i: int)
    requires
        0 <= i < squeezed(text).len() - 1,
    ensures
        !(squeezed(text)[i] == ' ' && squeezed(text)[i + 1] == ' '),
{
    lemma_squeezed(text);
}

/// A message without two spaces in a row is shown as it is.
pub proof fn law_squeezed_keeps_single_spaces(text: Seq<char>)
    requires
        forall|i: int|
            0 <= i < text.len() - 1 ==> !(#[trigger] text[i] == ' ' && text[i + 1] == ' '),
    ensures
        squeezed(text) == text,
    decreases text.len(),
{
    if text.len() > 0 {
        assert forall|i: int| 0 <= i < text.drop_last().len() - 1 implies !(
        #[trigger] text.drop_last()[i] == ' ' && text.drop_last()[i + 1] == ' ') by {
            assert(text[i] == text.drop_last()[i]);
        }
        law_squeezed_keeps_single_spaces(text.drop_last());
        if text.len() > 1 {
            assert(text[text.len() - 2] == text.drop_last().last());
        }
        assert(text.drop_last().push(text.last()) =~= text);
    }
}

/// Of two spaces in a row one makes no difference, wherever they stand.
pub proof fn law_second_space_makes_no_difference(front: Seq<char>, back: Seq<char>)
    ensures
        squeezed(front + seq![' ', ' '] + back) == squeezed(front + seq![' '] + back),
    decreases back.len(),
{
    let (two, one) = (front + seq![' ', ' '] + back, front + seq![' '] + back);
    if back.len() == 0 {
        assert(two.drop_last() =~= one);
        assert(two.last() == ' ' && two[two.len() - 2] == ' ');
    } else {
        law_second_space_makes_no_difference(front, back.drop_last());
        assert(two.drop_last() =~= front + seq![' ', ' '] + back.drop_last());
        assert(one.drop_last() =~= front + seq![' '] + back.drop_last());
        assert(two.last() == one.last());
        assert(two[two.len() - 2] == one[one.len() - 2]);
    }
}

/// A line of chat is the sender's name in angle brackets, a space, and the squeezed message; its
/// packet is the number 3, the length of the line in bytes, and the line.
pub proof fn law_chat_line(user: Seq<char>, message: Seq<char>)
    ensures
        chat_line(user, message).len() == user.len() + 3 + squeezed(message).len(),
        chat_line(user, message)[0] == '<',
        chat_line(user, message).subrange(1, 1 + user.len() as int) == user,
        chat_line(user, message)[1 + user.len() as int] == '>',
        chat_line(user, message)[2 + user.len() as int] == ' ',
        chat_line(user, message).skip(3 + user.len() as int) == squeezed(message),
        chat_bytes(chat_line(user, message))[0] == 3,
        chat_bytes(chat_line(user, message)).skip(3) == encode_utf8(chat_line(user, message)),
        encode_utf8(chat_line(user, message)).len() <= 0xffff ==> chat_bytes(
            chat_line(user, message),
        )[1] * 0x100 + chat_bytes(chat_line(user, message))[2] == encode_utf8(
            chat_line(user, message),
        ).len(),
{
    let line = chat_line(user, message);
    let n = user.len() as int;
    assert(line.subrange(1, 1 + n) =~= user);
    assert(line.skip(3 + n) =~= squeezed(message));
    law_be16(encode_utf8(line).len() as usize as u16);
    assert(chat_bytes(line).skip(3) =~= encode_utf8(line));
}

} // verus!
