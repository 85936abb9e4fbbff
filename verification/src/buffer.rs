//! Packing users and groups into the buffer that a caller of NSS provides.
//!
//! A position in the buffer is an offset from its start.
use crate::model::{Group, GroupView, User, UserView};
use vstd::prelude::*;
use vstd::utf8::{char_u32_cast, decode_utf8, encode_scalar, encode_utf8, encode_utf8_decode_utf8};

verus! {

/// The bytes of `text` as a C string: UTF-8 and a NUL.
pub open spec fn c_string(text: Seq<char>) -> Seq<u8> {
    encode_utf8(text).push(0)
}

/// The C strings of `items` one after the other.
pub open spec fn c_strings(items: Seq<Seq<char>>) -> Seq<u8>
    decreases items.len(),
{
    if items.len() == 0 {
        Seq::empty()
    } else {
        c_strings(items.drop_last()) + c_string(items.last())
    }
}

/// `buf` with `bytes` in place of what stood at `at`.
pub open spec fn spliced(buf: Seq<u8>, at: int, bytes: Seq<u8>) -> Seq<u8> {
    buf.take(at) + bytes + buf.skip(at + bytes.len())
}

/// Whether the C string of `text` stands in `buf` at `at`.
pub open spec fn holds_text(buf: Seq<u8>, at: int, text: Seq<char>) -> bool {
    &&& 0 <= at
    &&& at + c_string(text).len() <= buf.len()
    &&& buf.subrange(at, at + c_string(text).len()) == c_string(text)
}

/// Write a C string into the buffer, advancing the offset.
/// Returns where it stands, or `None` if the buffer is too small.
pub fn write_str(buf: &mut Vec<u8>, offset: &mut usize, s: &str) -> (res: Option<usize>)
    ensures
        match res {
            Some(at) => {
                &&& at == *old(offset)
                &&& at + c_string(s@).len() <= old(buf)@.len()
                &&& *final(offset) == at + c_string(s@).len()
                &&& final(buf)@ == spliced(old(buf)@, at as int, c_string(s@))
                &&& holds_text(final(buf)@, at as int, s@)
            },
            None => {
                &&& *old(offset) + c_string(s@).len() > old(buf)@.len()
                &&& *final(offset) == *old(offset)
                &&& final(buf)@ == old(buf)@
            },
        },
        final(buf)@.len() == old(buf)@.len(),
        res is Some <==> *old(offset) + encode_utf8(s@).len() + 1 <= old(buf)@.len(),
        res is Some ==> res->0 == *old(offset) && *final(offset) == *old(offset) + encode_utf8(
            s@,
        ).len() + 1,
        forall|i: int|
            0 <= i < old(buf)@.len() && (i < *old(offset) || i >= *final(offset))
                ==> #[trigger] final(buf)@[i] == old(buf)@[i],
        res is Some ==> forall|i: int|
            0 <= i < encode_utf8(s@).len() ==> final(buf)@[*old(offset) + i] == #[trigger] encode_utf8(
                s@,
            )[i],
        res is Some ==> final(buf)@[*old(offset) + encode_utf8(s@).len()] == 0,
{
    let bytes = s.as_bytes();
    let len: usize = bytes.len();
    let at: usize = *offset;
    if at > buf.len() || buf.len() - at <= len {
        return None;
    }
    let ghost before = buf@;
    let size: usize = buf.len();
    for i in 0..len
        invariant
            size == before.len(),
            bytes@ == encode_utf8(s@),
            len == bytes@.len(),
            at + len < before.len(),
            buf@.len() == before.len(),
            buf@ == spliced(before, at as int, bytes@.take(i as int)),
    {
        buf.set(at + i, bytes[i]);
        assert(buf@ =~= spliced(before, at as int, bytes@.take(i + 1)));
    }
    assert(bytes@.take(len as int) == bytes@);
    buf.set(at + len, 0);
    assert(buf@ =~= spliced(before, at as int, c_string(s@)));
    assert(buf@.subrange(at as int, at + c_string(s@).len()) =~= c_string(s@));
    *offset = at + len + 1;
    Some(at)
}

/// Where the fields of a `struct passwd` stand in the buffer, and its numbers.
#[derive(Debug, Clone, Copy, PartialEq, Eq, Structural)]
pub struct PasswdEntry {
    pub pw_name: usize,
    pub pw_passwd: usize,
    pub pw_uid: u32,
    pub pw_gid: u32,
    pub pw_gecos: usize,
    pub pw_dir: usize,
    pub pw_shell: usize,
}

/// The texts of a `struct passwd` in the order in which they are packed.
pub open spec fn passwd_texts(user: UserView) -> Seq<Seq<char>> {
    seq![user.name, "x"@, user.gecos, user.home, user.shell]
}

/// How many bytes a user takes.
pub open spec fn passwd_size(user: UserView) -> int {
    c_strings(passwd_texts(user)).len() as int
}

/// Whether `entry` describes `user` packed into `buf`.
pub open spec fn passwd_packed(user: UserView, entry: PasswdEntry, buf: Seq<u8>) -> bool {
    &&& holds_text(buf, entry.pw_name as int, user.name)
    &&& holds_text(buf, entry.pw_passwd as int, "x"@)
    &&& holds_text(buf, entry.pw_gecos as int, user.gecos)
    &&& holds_text(buf, entry.pw_dir as int, user.home)
    &&& holds_text(buf, entry.pw_shell as int, user.shell)
    &&& entry.pw_uid == user.uid
    &&& entry.pw_gid == user.gid
}

/// What was written is what stands at the start of the buffer; `rest` is what
/// stood there before.
pub open spec fn starts_with_texts(buf: Seq<u8>, items: Seq<Seq<char>>, rest: Seq<u8>) -> bool {
    &&& c_strings(items).len() <= rest.len()
    &&& buf == c_strings(items) + rest.skip(c_strings(items).len() as int)
}

/// Writes one more text behind those that stand at the start of the buffer.
fn write_next(
    buf: &mut Vec<u8>,
    offset: &mut usize,
    s: &str,
    items: Ghost<Seq<Seq<char>>>,
    rest: Ghost<Seq<u8>>,
) -> (res: Option<usize>)
    requires
        starts_with_texts(old(buf)@, items@, rest@),
        *old(offset) == c_strings(items@).len(),
    ensures
        final(buf)@.len() == old(buf)@.len(),
        match res {
            Some(at) => {
                &&& at == c_strings(items@).len()
                &&& starts_with_texts(final(buf)@, items@.push(s@), rest@)
                &&& *final(offset) == c_strings(items@.push(s@)).len()
            },
            None => {
                &&& c_strings(items@.push(s@)).len() > rest@.len()
                &&& *final(offset) == *old(offset)
                &&& final(buf)@ == old(buf)@
            },
        },
{
    let ghost more = items@.push(s@);
    proof {
        assert(more.drop_last() =~= items@);
        assert(c_strings(more) == c_strings(items@) + c_string(s@));
    }
    let res = write_str(buf, offset, s);
    proof {
        if let Some(at) = res {
            assert(buf@ =~= c_strings(more) + rest@.skip(c_strings(more).len() as int));
        }
    }
    res
}

/// Fill a `struct passwd` from a `User` model, writing strings into `buf`.
///
/// Returns `None` exactly where the buffer is too small for the five strings.
pub fn fill_passwd_buf(user: &User, buf: &mut Vec<u8>) -> (res: Option<PasswdEntry>)
    ensures
        final(buf)@.len() == old(buf)@.len(),
        res is Some <==> passwd_size(user@) <= old(buf)@.len(),
        res is Some <==> encode_utf8(user.name@).len() + encode_utf8("x"@).len() + encode_utf8(
            user.gecos@,
        ).len() + encode_utf8(user.home@).len() + encode_utf8(user.shell@).len() + 5
            <= old(buf)@.len(),
        res is Some ==> res->0.pw_uid == user.uid && res->0.pw_gid == user.gid,
        res matches Some(entry) ==> {
            &&& passwd_packed(user@, entry, final(buf)@)
            &&& starts_with_texts(final(buf)@, passwd_texts(user@), old(buf)@)
            &&& entry.pw_name == 0
            &&& entry.pw_passwd == c_strings(passwd_texts(user@).take(1)).len()
            &&& entry.pw_gecos == c_strings(passwd_texts(user@).take(2)).len()
            &&& entry.pw_dir == c_strings(passwd_texts(user@).take(3)).len()
            &&& entry.pw_shell == c_strings(passwd_texts(user@).take(4)).len()
        },
{
    let ghost rest = buf@;
    let ghost all = passwd_texts(user@);
    let mut offset: usize = 0;
    let ghost none: Seq<Seq<char>> = Seq::empty();
    proof {
        assert(c_strings(none) == Seq::<u8>::empty());
        assert(rest.skip(0) == rest);
        assert(all.take(0) == none);
        assert(all.take(1) == none.push(user@.name));
        assert(all.take(2) == all.take(1).push("x"@));
        assert(all.take(3) == all.take(2).push(user@.gecos));
        assert(all.take(4) == all.take(3).push(user@.home));
        assert(all == all.take(4).push(user@.shell));
        lemma_c_strings_take(all, 1);
        lemma_c_strings_take(all, 2);
        lemma_c_strings_take(all, 3);
        lemma_c_strings_take(all, 4);
        lemma_passwd_size(user@);
    }
    let pw_name: usize = write_next(
        buf,
        &mut offset,
        user.name.as_str(),
        Ghost(none),
        Ghost(rest),
    )?;
    let pw_passwd: usize = write_next(buf, &mut offset, "x", Ghost(all.take(1)), Ghost(rest))?;
    let pw_gecos: usize = write_next(
        buf,
        &mut offset,
        user.gecos.as_str(),
        Ghost(all.take(2)),
        Ghost(rest),
    )?;
    let pw_dir: usize = write_next(
        buf,
        &mut offset,
        user.home.as_str(),
        Ghost(all.take(3)),
        Ghost(rest),
    )?;
    let pw_shell: usize = write_next(
        buf,
        &mut offset,
        user.shell.as_str(),
        Ghost(all.take(4)),
        Ghost(rest),
    )?;
    proof {
        lemma_texts_are_held(buf@, all, rest, 0);
        lemma_texts_are_held(buf@, all, rest, 1);
        lemma_texts_are_held(buf@, all, rest, 2);
        lemma_texts_are_held(buf@, all, rest, 3);
        lemma_texts_are_held(buf@, all, rest, 4);
    }
    Some(
        PasswdEntry {
            pw_name,
            pw_passwd,
            pw_uid: user.uid,
            pw_gid: user.gid,
            pw_gecos,
            pw_dir,
            pw_shell,
        },
    )
}

/// Each text that was packed stands behind those before it.
pub proof fn lemma_texts_are_held(buf: Seq<u8>, items: Seq<Seq<char>>, rest: Seq<u8>, i: int)
    requires
        starts_with_texts(buf, items, rest),
        0 <= i < items.len(),
    ensures
        holds_text(buf, c_strings(items.take(i)).len() as int, items[i]),
{
    lemma_c_strings_take(items, i + 1);
    assert(items.take(i + 1).drop_last() =~= items.take(i));
    let at = c_strings(items.take(i)).len() as int;
    let end = c_strings(items.take(i + 1)).len() as int;
    assert(c_strings(items.take(i + 1)).subrange(at, end) =~= c_string(items[i]));
    assert(c_strings(items).take(end).subrange(at, end) =~= buf.subrange(at, end));
}

/// What is packed of the first few texts is how all of them start.
proof fn lemma_c_strings_take(items: Seq<Seq<char>>, n: int)
    requires
        0 <= n <= items.len(),
    ensures
        c_strings(items.take(n)).len() <= c_strings(items).len(),
        c_strings(items).take(c_strings(items.take(n)).len() as int) == c_strings(items.take(n)),
    decreases items.len(),
{
    if n < items.len() {
        lemma_c_strings_take(items.drop_last(), n);
        assert(items.drop_last().take(n) =~= items.take(n));
        let len = c_strings(items.take(n)).len() as int;
        assert(c_strings(items).take(len) =~= c_strings(items.drop_last()).take(len));
    } else {
        assert(items.take(n) =~= items);
        assert(c_strings(items).take(c_strings(items).len() as int) =~= c_strings(items));
    }
}

/// Where the fields of a `struct group` stand in the buffer, and its number.
#[derive(Debug, Clone, PartialEq, Eq)]
pub struct GroupEntry {
    pub gr_name: usize,
    pub gr_passwd: usize,
    pub gr_gid: u32,
    /// Where the array of pointers to the members goes, its NULL included.
    pub gr_mem: usize,
    /// Where the member names stand.
    pub members: Vec<usize>,
}

/// The texts of a `struct group` in the order in which they are packed.
pub open spec fn group_texts(group: GroupView) -> Seq<Seq<char>> {
    seq![group.name, "x"@] + group.members
}

/// The first multiple of `align` that is not below `n`.
pub open spec fn aligned(n: int, align: int) -> int {
    if n % align == 0 {
        n
    } else {
        n + align - n % align
    }
}

/// How many bytes a group takes with pointers of this size and alignment.
pub open spec fn group_size(group: GroupView, ptr_size: usize, ptr_align: usize) -> int {
    aligned(c_strings(group_texts(group)).len() as int, ptr_align as int) + (group.members.len()
        + 1) * ptr_size
}

/// Whether `entry` describes `group` packed into `buf`, with room for the
/// pointers behind the texts.
pub open spec fn group_packed(
    group: GroupView,
    entry: GroupEntry,
    buf: Seq<u8>,
    ptr_size: usize,
    ptr_align: usize,
) -> bool {
    &&& holds_text(buf, entry.gr_name as int, group.name)
    &&& holds_text(buf, entry.gr_passwd as int, "x"@)
    &&& entry.gr_gid == group.gid
    &&& entry.members@.len() == group.members.len()
    &&& forall|i: int|
        0 <= i < group.members.len() ==> holds_text(
            buf,
            #[trigger] entry.members@[i] as int,
            group.members[i],
        )
    &&& entry.gr_mem == aligned(c_strings(group_texts(group)).len() as int, ptr_align as int)
    &&& entry.gr_mem + (group.members.len() + 1) * ptr_size <= buf.len()
}

/// Fill a `struct group` from a `Group` model, writing strings into `buf` and
/// leaving room for the `gr_mem` pointer array.
///
/// Buffer layout:
/// ```text
/// [ "gr_name\0" | "x\0" | "member1\0" | "member2\0" | <align> | ptr1 | ptr2 | NULL ]
/// ```
///
/// Returns `None` exactly where the buffer is too small for all of that.
pub fn fill_group_buf(group: &Group, buf: &mut Vec<u8>, ptr_size: usize, ptr_align: usize) -> (res:
    Option<GroupEntry>)
    requires
        ptr_align > 0,
    ensures
        final(buf)@.len() == old(buf)@.len(),
        res is Some <==> group_size(group@, ptr_size, ptr_align) <= old(buf)@.len(),
        res matches Some(entry) ==> {
            &&& group_packed(group@, entry, final(buf)@, ptr_size, ptr_align)
            &&& starts_with_texts(final(buf)@, group_texts(group@), old(buf)@)
            &&& entry.gr_name == 0
            &&& entry.gr_passwd == c_strings(group_texts(group@).take(1)).len()
            &&& forall|i: int|
                0 <= i < group@.members.len() ==> #[trigger] entry.members@[i] == c_strings(
                    group_texts(group@).take(i + 2),
                ).len()
        },
{
    let ghost rest = buf@;
    let ghost all = group_texts(group@);
    let mut offset: usize = 0;
    let ghost none: Seq<Seq<char>> = Seq::empty();
    let ghost count = group@.members.len();
    proof {
        assert(c_strings(none) == Seq::<u8>::empty());
        assert(rest.skip(0) == rest);
        assert(all.take(1) =~= none.push(group@.name));
        assert(all.take(2) =~= all.take(1).push("x"@));
        lemma_c_strings_take(all, 1);
        lemma_c_strings_take(all, 2);
        lemma_group_size(group@, ptr_size, ptr_align);
    }
    let gr_name: usize = write_next(
        buf,
        &mut offset,
        group.name.as_str(),
        Ghost(none),
        Ghost(rest),
    )?;
    let gr_passwd: usize = write_next(buf, &mut offset, "x", Ghost(all.take(1)), Ghost(rest))?;
    let mut members: Vec<usize> = Vec::new();
    for i in 0..group.members.len()
        invariant
            all == group_texts(group@),
            rest == old(buf)@,
            count == group@.members.len(),
            count == group.members@.len(),
            buf@.len() == rest.len(),
            starts_with_texts(buf@, all.take(i + 2), rest),
            offset == c_strings(all.take(i + 2)).len(),
            members@.len() == i,
            forall|j: int|
                0 <= j < i ==> #[trigger] members@[j] == c_strings(all.take(j + 2)).len(),
            group_size(group@, ptr_size, ptr_align) >= c_strings(all).len(),
    {
        proof {
            assert(all.take(i + 3) =~= all.take(i + 2).push(group@.members[i as int]));
            lemma_c_strings_take(all, i + 3);
        }
        let at: usize = write_next(
            buf,
            &mut offset,
            group.members[i].as_str(),
            Ghost(all.take(i + 2)),
            Ghost(rest),
        )?;
        members.push(at);
    }
    assert(all.take(count as int + 2) =~= all);
    let misalign: usize = offset % ptr_align;
    let padding: usize = if misalign != 0 {
        ptr_align - misalign
    } else {
        0
    };
    let slots: u128 = members.len() as u128 + 1;
    assert(slots * ptr_size <= 0x1_0000_0000_0000_0000 * 0xffff_ffff_ffff_ffff) by (nonlinear_arith)
        requires
            slots <= 0x1_0000_0000_0000_0000,
            ptr_size <= 0xffff_ffff_ffff_ffff,
    ;
    let ptrs_needed: u128 = slots * (ptr_size as u128);
    let room: u128 = buf.len() as u128;
    let used: u128 = offset as u128 + padding as u128;
    if used > room || ptrs_needed > room - used {
        return None;
    }
    let gr_mem: usize = offset + padding;
    let entry = GroupEntry { gr_name, gr_passwd, gr_gid: group.gid, gr_mem, members };
    proof {
        lemma_texts_are_held(buf@, all, rest, 0);
        lemma_texts_are_held(buf@, all, rest, 1);
        assert forall|i: int| 0 <= i < count implies holds_text(
            buf@,
            #[trigger] entry.members@[i] as int,
            group@.members[i],
        ) by {
            lemma_texts_are_held(buf@, all, rest, i + 2);
        }
        assert(all.take(0) =~= none);
    }
    Some(entry)
}

/// A group takes at least the room of its texts.
proof fn lemma_group_size(group: GroupView, ptr_size: usize, ptr_align: usize)
    requires
        ptr_align > 0,
    ensures
        group_size(group, ptr_size, ptr_align) >= c_strings(group_texts(group)).len(),
{
    let texts = c_strings(group_texts(group)).len() as int;
    assert(0 <= texts % (ptr_align as int) < ptr_align);
    assert((group.members.len() + 1) * ptr_size >= 0) by (nonlinear_arith);
}

/// What a reader of a C string sees at `at`: the bytes up to the first NUL.
pub open spec fn c_string_at(buf: Seq<u8>, at: int) -> Seq<u8>
    decreases buf.len() - at,
{
    if at < 0 || at >= buf.len() || buf[at] == 0 {
        Seq::empty()
    } else {
        seq![buf[at]] + c_string_at(buf, at + 1)
    }
}

/// Texts without U+0000 are read back as they were packed.
pub proof fn lemma_text_read_back(buf: Seq<u8>, at: int, text: Seq<char>)
    requires
        holds_text(buf, at, text),
        !text.contains('\0'),
    ensures
        c_string_at(buf, at) == encode_utf8(text),
        decode_utf8(c_string_at(buf, at)) == text,
{
    lemma_encoding_has_no_nul(text);
    let packed = c_string(text);
    assert forall|i: int| 0 <= i < packed.len() implies buf[at + i] == packed[i] by {
        assert(buf.subrange(at, at + packed.len())[i] == packed[i]);
    }
    let bytes = encode_utf8(text);
    assert forall|i: int| 0 <= i < bytes.len() implies #[trigger] bytes[i] == buf[at + i] && bytes[i]
        != 0 by {
        assert(packed[i] == bytes[i]);
    }
    assert(packed[bytes.len() as int] == 0);
    lemma_read_up_to_nul(buf, at, bytes);
    encode_utf8_decode_utf8(text);
}

proof fn lemma_read_up_to_nul(buf: Seq<u8>, at: int, bytes: Seq<u8>)
    requires
        0 <= at,
        at + bytes.len() < buf.len(),
        forall|i: int| 0 <= i < bytes.len() ==> #[trigger] bytes[i] == buf[at + i] && bytes[i] != 0,
        buf[at + bytes.len()] == 0,
    ensures
        c_string_at(buf, at) == bytes,
    decreases bytes.len(),
{
    if bytes.len() > 0 {
        assert(bytes[0] == buf[at]);
        assert forall|i: int| 0 <= i < bytes.len() - 1 implies #[trigger] bytes.skip(1)[i] == buf[at
            + 1 + i] && bytes.skip(1)[i] != 0 by {
            assert(bytes[i + 1] == buf[at + (i + 1)]);
        }
        lemma_read_up_to_nul(buf, at + 1, bytes.skip(1));
        assert(seq![buf[at]] + bytes.skip(1) =~= bytes);
    } else {
        assert(bytes =~= Seq::empty());
    }
}

proof fn lemma_encoding_has_no_nul(text: Seq<char>)
    requires
        !text.contains('\0'),
    ensures
        forall|i: int| 0 <= i < encode_utf8(text).len() ==> #[trigger] encode_utf8(text)[i] != 0,
    decreases text.len(),
{
    if text.len() > 0 {
        let rest = text.drop_first();
        assert(text.contains(text[0]));
        let v = text[0] as u32;
        if v == 0 {
            char_u32_cast(text[0], v);
            char_u32_cast('\0', v);
        }
        assert(v != 0);
        assert(!rest.contains('\0')) by {
            if rest.contains('\0') {
                let i = choose|i: int| 0 <= i < rest.len() && rest[i] == '\0';
                assert(text[i + 1] == '\0');
            }
        }
        lemma_encoding_has_no_nul(rest);
        assert(v < 0x80 && v != 0 ==> (v & 0x7F) as u8 != 0) by (bit_vector);
        assert(0xC0 | ((v >> 6) & 0x1F) as u8 != 0) by (bit_vector);
        assert(0xE0 | ((v >> 12) & 0x0F) as u8 != 0) by (bit_vector);
        assert(0xF0 | ((v >> 18) & 0x7) as u8 != 0) by (bit_vector);
        assert(0x80 | (v & 0x3F) as u8 != 0) by (bit_vector);
        assert(0x80 | ((v >> 6) & 0x3F) as u8 != 0) by (bit_vector);
        assert(0x80 | ((v >> 12) & 0x3F) as u8 != 0) by (bit_vector);
        let first = encode_scalar(v);
        assert(forall|i: int| 0 <= i < first.len() ==> #[trigger] first[i] != 0);
        assert(encode_utf8(text) == first + encode_utf8(rest));
    }
}

/// A C string is the UTF-8 of its text with a NUL behind it.
pub proof fn lemma_c_string(text: Seq<char>)
    ensures
        c_string(text).len() == encode_utf8(text).len() + 1,
        c_string(text).last() == 0,
        forall|i: int|
            0 <= i < encode_utf8(text).len() ==> #[trigger] c_string(text)[i] == encode_utf8(text)[i],
{
}

/// C strings stand one after the other.
pub proof fn lemma_c_strings(items: Seq<Seq<char>>, next: Seq<char>)
    ensures
        c_strings(Seq::empty()).len() == 0,
        c_strings(items.push(next)) == c_strings(items) + encode_utf8(next) + seq![0u8],
{
    assert(items.push(next).drop_last() =~= items);
    assert(c_strings(items.push(next)) =~= c_strings(items) + encode_utf8(next) + seq![0u8]);
}

/// A text that stands in a buffer stands there byte by byte, with a NUL behind it.
pub proof fn lemma_held_text(buf: Seq<u8>, at: int, text: Seq<char>)
    ensures
        holds_text(buf, at, text) <==> {
            &&& 0 <= at
            &&& at + encode_utf8(text).len() < buf.len()
            &&& buf.subrange(at, at + encode_utf8(text).len()) == encode_utf8(text)
            &&& buf[at + encode_utf8(text).len()] == 0
        },
{
    let bytes = encode_utf8(text);
    if 0 <= at && at + bytes.len() < buf.len() {
        let whole = buf.subrange(at, at + bytes.len() + 1);
        if holds_text(buf, at, text) {
            assert forall|i: int| 0 <= i < bytes.len() implies buf.subrange(at, at + bytes.len())[i]
                == bytes[i] by {
                assert(whole[i] == c_string(text)[i]);
            }
            assert(buf.subrange(at, at + bytes.len()) =~= bytes);
            assert(whole[bytes.len() as int] == 0);
        } else if buf.subrange(at, at + bytes.len()) == bytes && buf[at + bytes.len()] == 0 {
            assert forall|i: int| 0 <= i < bytes.len() + 1 implies whole[i] == c_string(text)[i] by {
                if i < bytes.len() {
                    assert(buf.subrange(at, at + bytes.len())[i] == bytes[i]);
                }
            }
            assert(whole =~= c_string(text));
        }
    }
}

/// Splicing changes what stands at the place and nothing else.
pub proof fn lemma_spliced(buf: Seq<u8>, at: int, bytes: Seq<u8>)
    requires
        0 <= at,
        at + bytes.len() <= buf.len(),
    ensures
        spliced(buf, at, bytes).len() == buf.len(),
        spliced(buf, at, bytes).subrange(at, at + bytes.len()) == bytes,
        forall|i: int|
            0 <= i < at || at + bytes.len() <= i < buf.len() ==> #[trigger] spliced(buf, at, bytes)[i]
                == buf[i],
{
    assert(spliced(buf, at, bytes).subrange(at, at + bytes.len()) =~= bytes);
}

/// Behind the texts that were packed the buffer is as it was.
pub proof fn lemma_rest_is_kept(buf: Seq<u8>, items: Seq<Seq<char>>, rest: Seq<u8>)
    requires
        starts_with_texts(buf, items, rest),
    ensures
        buf.len() == rest.len(),
        c_strings(items).is_prefix_of(buf),
        forall|i: int| c_strings(items).len() <= i < rest.len() ==> #[trigger] buf[i] == rest[i],
{
    assert(buf.subrange(0, c_strings(items).len() as int) =~= c_strings(items));
}

/// A user takes the bytes of name, password, full name, home directory and shell, and a
/// NUL behind each.
pub proof fn lemma_passwd_size(user: UserView)
    ensures
        passwd_size(user) == encode_utf8(user.name).len() + encode_utf8("x"@).len() + encode_utf8(
            user.gecos,
        ).len() + encode_utf8(user.home).len() + encode_utf8(user.shell).len() + 5,
        passwd_texts(user) == seq![user.name, "x"@, user.gecos, user.home, user.shell],
{
    let all = passwd_texts(user);
    let none: Seq<Seq<char>> = Seq::empty();
    let a = none.push(user.name);
    let b = a.push("x"@);
    let c = b.push(user.gecos);
    let d = c.push(user.home);
    lemma_c_strings(none, user.name);
    lemma_c_strings(a, "x"@);
    lemma_c_strings(b, user.gecos);
    lemma_c_strings(c, user.home);
    lemma_c_strings(d, user.shell);
    assert(all =~= d.push(user.shell));
}

/// An entry of a user has the user's numbers, and each of its texts stands where it says.
pub proof fn lemma_packed_user(user: UserView, entry: PasswdEntry, buf: Seq<u8>)
    requires
        passwd_packed(user, entry, buf),
    ensures
        entry.pw_uid == user.uid,
        entry.pw_gid == user.gid,
        holds_text(buf, entry.pw_name as int, user.name),
        holds_text(buf, entry.pw_passwd as int, "x"@),
        holds_text(buf, entry.pw_gecos as int, user.gecos),
        holds_text(buf, entry.pw_dir as int, user.home),
        holds_text(buf, entry.pw_shell as int, user.shell),
{
}

/// An aligned number is the first multiple of the alignment that is not below it.
pub proof fn lemma_aligned(n: int, align: int)
    requires
        n >= 0,
        align > 0,
    ensures
        aligned(n, align) % align == 0,
        n <= aligned(n, align) < n + align,
{
    vstd::arithmetic::div_mod::lemma_fundamental_div_mod(n, align);
    vstd::arithmetic::div_mod::lemma_mod_bound(n, align);
    if n % align != 0 {
        let q = n / align;
        assert(n + align - n % align == (q + 1) * align) by (nonlinear_arith)
            requires
                n == align * q + n % align,
        ;
        vstd::arithmetic::div_mod::lemma_mod_multiples_basic(q + 1, align);
    }
}

/// A group takes the bytes of its texts with a NUL behind each, then, aligned, a pointer
/// for each member and one more.
pub proof fn lemma_room_for_group(group: GroupView, ptr_size: usize, ptr_align: usize)
    requires
        ptr_align > 0,
    ensures
        group_texts(group).len() == group.members.len() + 2,
        group_texts(group)[0] == group.name,
        group_texts(group)[1] == "x"@,
        forall|i: int|
            0 <= i < group.members.len() ==> #[trigger] group_texts(group)[i + 2] == group.members[i],
        ({
            let pointers = group_size(group, ptr_size, ptr_align) - (group.members.len() + 1)
                * ptr_size;
            let texts = c_strings(group_texts(group)).len();
            texts <= pointers < texts + ptr_align && pointers % ptr_align as int == 0
        }),
{
    lemma_aligned(c_strings(group_texts(group)).len() as int, ptr_align as int);
}

/// An entry of a group has the group's number, name and members, all of them in order, each
/// where it says, and an aligned place for the pointers behind the texts.
pub proof fn lemma_packed_group(
    group: GroupView,
    entry: GroupEntry,
    buf: Seq<u8>,
    ptr_size: usize,
    ptr_align: usize,
)
    requires
        ptr_align > 0,
        group_packed(group, entry, buf, ptr_size, ptr_align),
    ensures
        entry.gr_gid == group.gid,
        holds_text(buf, entry.gr_name as int, group.name),
        holds_text(buf, entry.gr_passwd as int, "x"@),
        entry.members@.len() == group.members.len(),
        forall|i: int|
            0 <= i < group.members.len() ==> holds_text(
                buf,
                #[trigger] entry.members@[i] as int,
                group.members[i],
            ),
        entry.gr_mem % ptr_align == 0,
        entry.gr_mem >= c_strings(group_texts(group)).len(),
        entry.gr_mem + (group.members.len() + 1) * ptr_size <= buf.len(),
{
    lemma_aligned(c_strings(group_texts(group)).len() as int, ptr_align as int);
}

} // verus!
