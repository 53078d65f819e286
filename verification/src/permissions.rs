//! The `ls -l` style rendering of a Unix file mode, such as `drwxr-xr-x`.
use vstd::prelude::*;

verus! {

/// Whose permission bits a group of three characters shows.
#[derive(PartialEq, Eq, Structural, Clone, Copy, Debug)]
pub enum PermissionTarget {
    Owner,
    Group,
    Other,
}

/// The mode word of a file, as `st_mode` holds it: the file type in the
/// bits of `0o170000`, the set-user-ID, set-group-ID and sticky bits, and
/// the read, write and execute bits of owner, group and others.
pub struct Permissions {
    pub mode: u32,
}

/// Whether every bit of `bits` is set in `mode`.
pub open spec fn has_bits(mode: u32, bits: u32) -> bool {
    mode & bits == bits
}

/// The character that stands for the file type held in `mode & 0o170000`:
/// a named pipe, a character device, a directory, a block device, a
/// symbolic link or a socket; any other type (a regular file among them)
/// shows as `.`.
pub open spec fn file_type_char(mode: u32) -> char {
    let kind = mode & 0o170000u32;
    if kind == 0o010000u32 {
        'p'
    } else if kind == 0o020000u32 {
        'c'
    } else if kind == 0o040000u32 {
        'd'
    } else if kind == 0o060000u32 {
        'b'
    } else if kind == 0o120000u32 {
        'l'
    } else if kind == 0o140000u32 {
        's'
    } else {
        '.'
    }
}

/// The mode shifted so that the read, write and execute bits of `target`
/// are its three lowest bits.
pub open spec fn bits_for_target(mode: u32, target: PermissionTarget) -> u32 {
    match target {
        PermissionTarget::Owner => mode >> 6u32,
        PermissionTarget::Group => mode >> 3u32,
        PermissionTarget::Other => mode,
    }
}

/// The third character of a group: `x` or `-` for the execute bit of
/// `mode_for_target`, shown as `s`/`S` when the group is the owner's and the
/// set-user-ID bit of `mode` is set, as `s`/`S` when it is the group's and
/// the set-group-ID bit is set, and as `t`/`T` when it is the others' and
/// the sticky bit of `mode_for_target` is set (lower case when the execute
/// bit is set too).
pub open spec fn execution_char(mode: u32, mode_for_target: u32, target: PermissionTarget) -> char {
    let executable = has_bits(mode_for_target, 0o1u32);
    let special = match target {
        PermissionTarget::Owner => has_bits(mode, 0o4000u32),
        PermissionTarget::Group => has_bits(mode, 0o2000u32),
        PermissionTarget::Other => has_bits(mode_for_target, 0o1000u32),
    };
    if !special {
        if executable { 'x' } else { '-' }
    } else {
        match target {
            PermissionTarget::Other => if executable { 't' } else { 'T' },
            _ => if executable { 's' } else { 'S' },
        }
    }
}

/// The three characters that show the permissions of `target`.
pub open spec fn mode_text(mode: u32, target: PermissionTarget) -> Seq<char> {
    let m = bits_for_target(mode, target);
    seq![
        if has_bits(m, 0o4u32) { 'r' } else { '-' },
        if has_bits(m, 0o2u32) { 'w' } else { '-' },
        execution_char(mode, m, target),
    ]
}

/// The ten characters that show a mode: the file type, then the owner's,
/// the group's and the others' permissions.
pub open spec fn permissions_text(mode: u32) -> Seq<char> {
    seq![file_type_char(mode)] + mode_text(mode, PermissionTarget::Owner) + mode_text(
        mode,
        PermissionTarget::Group,
    ) + mode_text(mode, PermissionTarget::Other)
}

/// The one-character text of an ASCII byte among those a mode shows.
fn symbol_str(b: u8) -> (s: &'static str)
    requires
        b == 45 || b == 120 || b == 83 || b == 115 || b == 84 || b == 116,
    ensures
        s@ == seq![b as char],
{
    proof {
        reveal_strlit("-");
        reveal_strlit("x");
        reveal_strlit("S");
        reveal_strlit("s");
        reveal_strlit("T");
        reveal_strlit("t");
    }
    if b == 45 {
        "-"
    } else if b == 120 {
        "x"
    } else if b == 83 {
        "S"
    } else if b == 115 {
        "s"
    } else if b == 84 {
        "T"
    } else {
        "t"
    }
}

impl Permissions {
    pub fn new(mode: u32) -> (p: Self)
        ensures
            p.mode == mode,
    {
        Permissions { mode: mode }
    }

    /// The character that stands for the file's type.
    pub fn file_type(&self) -> (c: char)
        ensures
            c == file_type_char(self.mode),
    {
        let mask: u32 = 0o170000;
        let kind = self.mode & mask;
        if kind == 0o010000 {
            'p'
        } else if kind == 0o020000 {
            'c'
        } else if kind == 0o040000 {
            'd'
        } else if kind == 0o060000 {
            'b'
        } else if kind == 0o120000 {
            'l'
        } else if kind == 0o140000 {
            's'
        } else {
            '.'
        }
    }

    /// The third character of the group of `target`, as an ASCII byte, for
    /// `mode_for_target` the mode shifted so that the group's bits are lowest.
    pub fn execution_mode(&self, mode_for_target: u32, target: PermissionTarget) -> (b: u8)
        ensures
            b as char == execution_char(self.mode, mode_for_target, target),
            b == 45 || b == 120 || b == 83 || b == 115 || b == 84 || b == 116,
    {
        let executable = mode_for_target & 0b001 == 0b001;
        let sticky = mode_for_target & 0o1000 == 0o1000;
        let y: usize = match target {
            PermissionTarget::Owner => {
                if self.is_setuid() { 1 } else { 0 }
            },
            PermissionTarget::Group => {
                if self.is_setgid() { 1 } else { 0 }
            },
            PermissionTarget::Other => {
                if sticky { 2 } else { 0 }
            },
        };
        if y == 0 {
            if executable { 120 } else { 45 }
        } else if y == 1 {
            if executable { 115 } else { 83 }
        } else {
            if executable { 116 } else { 84 }
        }
    }

    /// The three characters for the read, write and execute permissions of
    /// `target`, such as `rwx` or `r-S`.
    pub fn mode_expression(&self, target: PermissionTarget) -> (s: String)
        ensures
            s@ == mode_text(self.mode, target),
    {
        let mode = self.mode;
        let mode_for_target = match target {
            PermissionTarget::Owner => mode >> 6,
            PermissionTarget::Group => mode >> 3,
            PermissionTarget::Other => mode,
        };
        proof {
            reveal_strlit("r");
            reveal_strlit("w");
            reveal_strlit("-");
        }
        let mut s = String::new();
        if mode_for_target & 0b100 == 0b100 {
            s.append("r");
        } else {
            s.append("-");
        }
        if mode_for_target & 0b010 == 0b010 {
            s.append("w");
        } else {
            s.append("-");
        }
        let b = self.execution_mode(mode_for_target, target);
        s.append(symbol_str(b));
        assert(s@ =~= mode_text(self.mode, target));
        s
    }

    /// Whether the set-user-ID bit is set.
    pub fn is_setuid(&self) -> (b: bool)
        ensures
            b == has_bits(self.mode, 0o4000u32),
    {
        self.mode & 0o4000 == 0o4000
    }

    /// Whether the set-group-ID bit is set.
    pub fn is_setgid(&self) -> (b: bool)
        ensures
            b == has_bits(self.mode, 0o2000u32),
    {
        self.mode & 0o2000 == 0o2000
    }

    /// The ten characters of the mode, such as `drwxr-xr-x`.
    pub fn to_string(&self) -> (s: String)
        ensures
            s@ == permissions_text(self.mode),
            s@.len() == 10,
    {
        let mode_for_owner = self.mode_expression(PermissionTarget::Owner);
        let mode_for_group = self.mode_expression(PermissionTarget::Group);
        let mode_for_other = self.mode_expression(PermissionTarget::Other);
        let filetype = self.file_type();
        let mut s = String::new();
        s.append(type_str(filetype));
        s.append(mode_for_owner.as_str());
        s.append(mode_for_group.as_str());
        s.append(mode_for_other.as_str());
        assert(s@ =~= permissions_text(self.mode));
        s
    }
}

/// The one-character text of a file type character.
fn type_str(c: char) -> (s: &'static str)
    requires
        c == 'p' || c == 'c' || c == 'd' || c == 'b' || c == 'l' || c == 's' || c == '.',
    ensures
        s@ == seq![c],
{
    proof {
        reveal_strlit("p");
        reveal_strlit("c");
        reveal_strlit("d");
        reveal_strlit("b");
        reveal_strlit("l");
        reveal_strlit("s");
        reveal_strlit(".");
    }
    if c == 'p' {
        "p"
    } else if c == 'c' {
        "c"
    } else if c == 'd' {
        "d"
    } else if c == 'b' {
        "b"
    } else if c == 'l' {
        "l"
    } else if c == 's' {
        "s"
    } else {
        "."
    }
}

/// Facts on single bits of a mode and of its shifts.
proof fn lemma_mode_bits(m: u32)
    by (bit_vector)
    ensures
        ((m >> 6u32) & 0o4u32 == 0o4u32) == (m & 0o400u32 == 0o400u32),
        ((m >> 6u32) & 0o2u32 == 0o2u32) == (m & 0o200u32 == 0o200u32),
        ((m >> 6u32) & 0o1u32 == 0o1u32) == (m & 0o100u32 == 0o100u32),
        ((m >> 3u32) & 0o4u32 == 0o4u32) == (m & 0o40u32 == 0o40u32),
        ((m >> 3u32) & 0o2u32 == 0o2u32) == (m & 0o20u32 == 0o20u32),
        ((m >> 3u32) & 0o1u32 == 0o1u32) == (m & 0o10u32 == 0o10u32),
{
}

/// Facts on the bits that survive masking a mode with `0o177777`.
proof fn lemma_masked_bits(m: u32)
    by (bit_vector)
    ensures
        (m & 0o177777u32) & 0o170000u32 == m & 0o170000u32,
        ((m & 0o177777u32) & 0o4000u32 == 0o4000u32) == (m & 0o4000u32 == 0o4000u32),
        ((m & 0o177777u32) & 0o2000u32 == 0o2000u32) == (m & 0o2000u32 == 0o2000u32),
        ((m & 0o177777u32) & 0o1000u32 == 0o1000u32) == (m & 0o1000u32 == 0o1000u32),
        ((m & 0o177777u32) & 0o400u32 == 0o400u32) == (m & 0o400u32 == 0o400u32),
        ((m & 0o177777u32) & 0o200u32 == 0o200u32) == (m & 0o200u32 == 0o200u32),
        ((m & 0o177777u32) & 0o100u32 == 0o100u32) == (m & 0o100u32 == 0o100u32),
        ((m & 0o177777u32) & 0o40u32 == 0o40u32) == (m & 0o40u32 == 0o40u32),
        ((m & 0o177777u32) & 0o20u32 == 0o20u32) == (m & 0o20u32 == 0o20u32),
        ((m & 0o177777u32) & 0o10u32 == 0o10u32) == (m & 0o10u32 == 0o10u32),
        ((m & 0o177777u32) & 0o4u32 == 0o4u32) == (m & 0o4u32 == 0o4u32),
        ((m & 0o177777u32) & 0o2u32 == 0o2u32) == (m & 0o2u32 == 0o2u32),
        ((m & 0o177777u32) & 0o1u32 == 0o1u32) == (m & 0o1u32 == 0o1u32),
{
}

/// Two modes that agree on each of the twelve permission bits agree on
/// `mode & 0o7777`.
proof fn lemma_permission_bits_determine(a: u32, b: u32)
    by (bit_vector)
    requires
        (a & 0o4000u32 == 0o4000u32) == (b & 0o4000u32 == 0o4000u32),
        (a & 0o2000u32 == 0o2000u32) == (b & 0o2000u32 == 0o2000u32),
        (a & 0o1000u32 == 0o1000u32) == (b & 0o1000u32 == 0o1000u32),
        (a & 0o400u32 == 0o400u32) == (b & 0o400u32 == 0o400u32),
        (a & 0o200u32 == 0o200u32) == (b & 0o200u32 == 0o200u32),
        (a & 0o100u32 == 0o100u32) == (b & 0o100u32 == 0o100u32),
        (a & 0o40u32 == 0o40u32) == (b & 0o40u32 == 0o40u32),
        (a & 0o20u32 == 0o20u32) == (b & 0o20u32 == 0o20u32),
        (a & 0o10u32 == 0o10u32) == (b & 0o10u32 == 0o10u32),
        (a & 0o4u32 == 0o4u32) == (b & 0o4u32 == 0o4u32),
        (a & 0o2u32 == 0o2u32) == (b & 0o2u32 == 0o2u32),
        (a & 0o1u32 == 0o1u32) == (b & 0o1u32 == 0o1u32),
    ensures
        a & 0o7777u32 == b & 0o7777u32,
{
}

/// The text of a mode shows only its file type and its twelve permission
/// bits: whatever lies above `0o177777` leaves it unchanged.
pub proof fn lemma_text_ignores_high_bits(mode: u32)
    ensures
        permissions_text(mode) == permissions_text(mode & 0o177777u32),
{
    let m2 = mode & 0o177777u32;
    lemma_mode_bits(mode);
    lemma_mode_bits(m2);
    lemma_masked_bits(mode);
    assert(mode_text(mode, PermissionTarget::Owner) =~= mode_text(m2, PermissionTarget::Owner));
    assert(mode_text(mode, PermissionTarget::Group) =~= mode_text(m2, PermissionTarget::Group));
    assert(mode_text(mode, PermissionTarget::Other) =~= mode_text(m2, PermissionTarget::Other));
    assert(permissions_text(mode) =~= permissions_text(m2));
}

/// The ten characters of a mode, taken apart into its four parts.
proof fn lemma_text_parts(mode: u32)
    ensures
        permissions_text(mode)[0] == file_type_char(mode),
        permissions_text(mode).subrange(1, 4) == mode_text(mode, PermissionTarget::Owner),
        permissions_text(mode).subrange(4, 7) == mode_text(mode, PermissionTarget::Group),
        permissions_text(mode).subrange(7, 10) == mode_text(mode, PermissionTarget::Other),
{
    let t = permissions_text(mode);
    assert(t.subrange(1, 4) =~= mode_text(mode, PermissionTarget::Owner));
    assert(t.subrange(4, 7) =~= mode_text(mode, PermissionTarget::Group));
    assert(t.subrange(7, 10) =~= mode_text(mode, PermissionTarget::Other));
}

/// Whether the bit shown beside a group's execute bit is set.
pub open spec fn special_bit(mode: u32, target: PermissionTarget) -> bool {
    match target {
        PermissionTarget::Owner => has_bits(mode, 0o4000u32),
        PermissionTarget::Group => has_bits(mode, 0o2000u32),
        PermissionTarget::Other => has_bits(mode, 0o1000u32),
    }
}

/// A group of three characters determines the four bits it shows.
proof fn lemma_group_determines(a: u32, b: u32, target: PermissionTarget)
    requires
        mode_text(a, target) == mode_text(b, target),
    ensures
        has_bits(bits_for_target(a, target), 0o4u32) == has_bits(bits_for_target(b, target), 0o4u32),
        has_bits(bits_for_target(a, target), 0o2u32) == has_bits(bits_for_target(b, target), 0o2u32),
        has_bits(bits_for_target(a, target), 0o1u32) == has_bits(bits_for_target(b, target), 0o1u32),
        special_bit(a, target) == special_bit(b, target),
{
    let ta = mode_text(a, target);
    let tb = mode_text(b, target);
    assert(ta[0] == tb[0]);
    assert(ta[1] == tb[1]);
    assert(ta[2] == tb[2]);
}

/// The text of a mode determines its twelve permission bits: two modes
/// shown alike have the same `mode & 0o7777`.
pub proof fn lemma_text_determines_permission_bits(a: u32, b: u32)
    requires
        permissions_text(a) == permissions_text(b),
    ensures
        a & 0o7777u32 == b & 0o7777u32,
{
    lemma_mode_bits(a);
    lemma_mode_bits(b);
    lemma_text_parts(a);
    lemma_text_parts(b);
    lemma_group_determines(a, b, PermissionTarget::Owner);
    lemma_group_determines(a, b, PermissionTarget::Group);
    lemma_group_determines(a, b, PermissionTarget::Other);
    lemma_permission_bits_determine(a, b);
}

/// The text of a mode determines its file type whenever the type is one
/// of those with a character of its own.
pub proof fn lemma_text_determines_file_type(a: u32, b: u32)
    requires
        permissions_text(a) == permissions_text(b),
        file_type_char(a) != '.',
    ensures
        a & 0o170000u32 == b & 0o170000u32,
{
    lemma_text_parts(a);
    lemma_text_parts(b);
}

} // verus!
