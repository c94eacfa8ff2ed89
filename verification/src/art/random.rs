//! The big creatures and objects: sharks, ships, whales, sea monsters, big
//! fish, the fishhook, dolphins and the submarine; their art, the frames
//! built from it, and which of them comes next.
use vstd::prelude::*;
use crate::chance::random_below;
use crate::shape::{Frame, Shape, art_cell, max_utf8_len, parsed_frame};
use crate::text::{
    byte_width, chars_of, char_pos, lemma_char_pos, lemma_lines_count, lemma_lines_single,
    lemma_lines_step, lemma_newline_count_concat, lemma_no_newlines, lines_of, newline_count,
    newlines_before, plain_line, rows_view, string_from_chars, utf8_len,
};

verus! {

// ---------------------------------------------------------------------------
// Shark
// ---------------------------------------------------------------------------

pub const SHARK_RIGHT_ART: &'static str = "\
                              __
                             ( `\\
  ,--------,----------,--------|  |
 /          '.        `        |  |
(             `.     ,-------- / _/
 \\             /    /  /    .-'    '---.
  `--------' /    /  /   .'    '.      )
             (   (  (   /       /   .-'
              '-' '-' '-'      '-'";

pub const SHARK_RIGHT_MASK: &'static str = "\
                              11
                             1 11
  1111111111111111111111111111  1
 1          11        1        1
1             11     11111111 1 1
 1             1    1  1    111    1111
  111111111 1    1  1   11    11      1
             1   1  1   1       1   11
              111 111 111      111";

pub const SHARK_LEFT_ART: &'static str = "\
 __
/` )
|  |--------,----------,--------,
|  |        '        .'          \\
\\_  \\ --------,     .'             )
 .---'    .-'  \\    \\             /
(      .'    '.   \\    \\ '--------'
  '-.   \\       )   )   )
      '-'      '-' '-' '-'";

pub const SHARK_LEFT_MASK: &'static str = "\
 11
11 1
1  1111111111111111111111111111
1        1        11          1
1 1 11111111     11             1
 1111    1  1    1             1
1      11    11   1    1 111111111
  11   1       1   1   1
      111      111 111 111";

pub const TEETH_RIGHT_ART: &'static str = "\
 ^  ^     ^
/|\\/ \\   / \\";

pub const TEETH_LEFT_ART: &'static str = "\
    ^     ^  ^
   / \\   / \\/|\\";

// ---------------------------------------------------------------------------
// Ship
// ---------------------------------------------------------------------------

pub const SHIP_RIGHT_ART: &'static str = "\
     |    |
    )_____|____
    )          |\\
    )   ____   | |
    )__/    \\__| |
   )|          | |
    )__________| |
        |______|/";

pub const SHIP_RIGHT_MASK: &'static str = "\
     1    1
    111111111
    1          11
    1   1111   1 1
    1111    1111 1
   11          1 1
    11111111111 1
        11111111";

pub const SHIP_LEFT_ART: &'static str = "\
   |    |
 ____|_____(
/|          (
| |   ____  (
| |__/    \\_(
| |          |)
| |__________(
 \\|______|";

pub const SHIP_LEFT_MASK: &'static str = "\
   1    1
 1111111111
11          1
1 1   1111  1
1 1111    1111
1 1          11
1 11111111111
 11111111";

// ---------------------------------------------------------------------------
// Whale
// ---------------------------------------------------------------------------

pub const WHALE_BODIES: [&'static str; 2] = [
    // Right-facing (dir=0)
    "\n\
        .-----:\n\
      .'       `.\n\
,????/       (o) \\\n\
\\`._/          ,__)\n",
    // Left-facing (dir=1)
    "\n\
    :-----.\n\
  .'       `.\n\
 / (o)       \\????,\n\
(__,          \\_.'/\n",
];

pub const WATER_SPOUT: [&'static str; 7] = [
    "\n\n\n   :\n",
    "\n\n   :\n   :\n",
    "\n  . .\n  -:-\n   :\n",
    "\n  . .\n .-:-.\n   :\n",
    "\n  . .\n'.-:-.`\n'  :  '\n",
    "\n\n .- -.\n;  :  ;\n",
    "\n\n\n;     ;\n",
];

pub const WHALE_MASKS: [&'static str; 2] = [
    // Right-facing mask
    "\n\
             C C\n\
           CCCCCCC\n\
           C  C  C\n\
        BBBBBBB\n\
      BB       BB\n\
B    B       BWB B\n\
BBBBB          BBBB\n",
    // Left-facing mask
    "\n\
   C C\n\
 CCCCCCC\n\
 C  C  C\n\
    BBBBBBB\n\
  BB       BB\n\
 B BWB       B    B\n\
BBBB          BBBBB\n",
];

// ---------------------------------------------------------------------------
// Monster
// ---------------------------------------------------------------------------

pub const MONSTER_RIGHT_ART_0: &'static str = "\
\n\
         _???_?????????????????????_???_???????_a_a\n\
       _{.`=`.}_??????_???_??????_{.`=`.}_????{/ ''\\_\n\
 _????{.'  _  '.}????{.`'`.}????{.'  _  '.}??{|  ._oo)\n\
{ \\??{/  .'?'.  \\}??{/ .-. \\}??{/  .'?'.  \\}?{/  |";

pub const MONSTER_RIGHT_ART_1: &'static str = "\
\n\
                      _???_????????????????????_a_a\n\
  _??????_???_??????_{.`=`.}_??????_???_??????{/ ''\\_\n\
 { \\????{.`'`.}????{.'  _  '.}????{.`'`.}????{|  ._oo)\n\
  \\ \\??{/ .-. \\}??{/  .'?'.  \\}??{/ .-. \\}???{/  |";

pub const MONSTER_LEFT_ART_0: &'static str = "\
\n\
   a_a_???????_???_?????????????????????_???_\n\
 _/'' \\}????_{.`=`.}_??????_???_??????_{.`=`.}_\n\
(oo_.  |}??{.'  _  '.}????{.`'`.}????{.'  _  '.}????_\n\
    |  \\}?{/  .'?'.  \\}??{/ .-. \\}??{/  .'?'.  \\}??/ }";

pub const MONSTER_LEFT_ART_1: &'static str = "\
\n\
   a_a_????????????????????_   _\n\
 _/'' \\}??????_???_??????_{.`=`.}_??????_???_??????_\n\
(oo_.  |}????{.`'`.}????{.'  _  '.}????{.`'`.}????/ }\n\
    |  \\}???{/ .-. \\}??{/  .'?'.  \\}??{/ .-. \\}??/ /";

pub const MONSTER_RIGHT_MASK: &'static str = "\
                                                W W\n\
\n\
\n\
\n\
";

pub const MONSTER_LEFT_MASK: &'static str = "\
\n\
   W W\n\
\n\
\n\
";

pub const OLD_MONSTER_RIGHT_0: &'static str = "\
                                                          ____\n\
            __??????????????????????????????????????????/   o  \\\n\
          /    \\????????_?????????????????????_???????/     ____ >\n\
  _??????|  __  |?????/   \\????????_????????/   \\????|     |\n\
 | \\?????|  ||  |????|     |?????/   \\?????|     |???|     |";

pub const OLD_MONSTER_RIGHT_1: &'static str = "\
                                                          ____\n\
                                             __?????????/   o  \\\n\
             _?????????????????????_???????/    \\?????/     ____ >\n\
   _???????/   \\????????_????????/   \\????|  __  |???|     |\n\
  | \\?????|     |?????/   \\?????|     |???|  ||  |???|     |";

pub const OLD_MONSTER_RIGHT_2: &'static str = "\
                                                          ____\n\
                                  __????????????????????/   o  \\\n\
 _??????????????????????_???????/    \\????????_???????/     ____ >\n\
| \\??????????_????????/   \\????|  __  |?????/   \\????|     |\n\
 \\ \\???????/   \\?????|     |???|  ||  |????|     |???|     |";

pub const OLD_MONSTER_RIGHT_3: &'static str = "\
                                                          ____\n\
                       __???????????????????????????????/   o  \\\n\
  _??????????_???????/    \\????????_??????????????????/     ____ >\n\
 | \\???????/   \\????|  __  |?????/   \\????????_??????|     |\n\
  \\ \\?????|     |???|  ||  |????|     |?????/   \\????|     |";

pub const OLD_MONSTER_LEFT_0: &'static str = "\
    ____\n\
  /  o   \\??????????????????????????????????????????__\n\
< ____     \\???????_?????????????????????_????????/    \\\n\
      |     |????/   \\????????_????????/   \\?????|  __  |??????_\n\
      |     |???|     |?????/   \\?????|     |????|  ||  |?????/ |";

pub const OLD_MONSTER_LEFT_1: &'static str = "\
    ____\n\
  /  o   \\?????????__\n\
< ____     \\?????/    \\???????_?????????????????????_\n\
      |     |???|  __  |????/   \\????????_????????/   \\???????_\n\
      |     |???|  ||  |???|     |?????/   \\?????|     |?????/ |";

pub const OLD_MONSTER_LEFT_2: &'static str = "\
    ____\n\
  /  o   \\????????????????????__\n\
< ____     \\???????_????????/    \\???????_??????????????????????_\n\
      |     |????/   \\?????|  __  |????/   \\????????_??????????/ |\n\
      |     |???|     |????|  ||  |???|     |?????/   \\???????/ /";

pub const OLD_MONSTER_LEFT_3: &'static str = "\
    ____\n\
  /  o   \\???????????????????????????????__\n\
< ____     \\??????????????????_????????/    \\???????_??????????_\n\
      |     |??????_????????/   \\?????|  __  |????/   \\???????/ |\n\
      |     |????/   \\?????|     |????|  ||  |???|     |?????/ /";

pub const OLD_MONSTER_RIGHT_MASK: &'static str = "\
\n\
                                                            W\n\
\n\
\n\
";

pub const OLD_MONSTER_LEFT_MASK: &'static str = "\
\n\
     W\n\
\n\
\n\
";

// ---------------------------------------------------------------------------
// Big fish
// ---------------------------------------------------------------------------

pub const BIG_FISH_1_RIGHT_ART: &'static str = "\
 ______\n\
`\"\"-.  `````-----.....__\n\
     `.  .      .       `-.\n\
       :     .     .       `.\n\
 ,?????:   .    .          _ :\n\
: `.???:                  (@) `._\n\
 `. `..'     .     =`-.       .__)\n\
   ;     .        =  ~  :     .-\"\n\
 .' .'`.   .    .  =.-'  `._ .'\n\
: .'???:               .   .'\n\
 '???.'  .    .     .   .-'\n\
   .'____....----''.'=.'\n\
   \"\"?????????????.'.' \n\
               ''\"'`";

pub const BIG_FISH_1_RIGHT_MASK: &'static str = "\
 111111\n\
11111  11111111111111111\n\
     11  2      2       111\n\
       1     2     2       11\n\
 1     1   2    2          1 1\n\
1 11   1                  1W1 111\n\
 11 1111     2     1111       1111\n\
   1     2        1  1  1     111\n\
 11 1111   2    2  1111  111 11\n\
1 11   1               2   11\n\
 1   11  2    2     2   111\n\
   111111111111111111111\n\
   11             1111\n\
               11111";

pub const BIG_FISH_1_LEFT_ART: &'static str = "\
                           ______\n\
          __.....-----'''''  .-\"\"'\n\
       .-'       .      .  .'\n\
     .'       .     .     :\n\
    : _          .    .   :?????,\n\
 _.' (@)                  :???.' :\n\
(__.       .-'=     .     `..' .'\n\
 \"-.     :  ~  =        .     ;\n\
   `. _.'  `-.=  .    .   .'`. `.\n\
     `.   .               :???`. :\n\
       `-.   .     .    .  `.???`\n\
          `.=`.``----....____`.\n\
            `.`.?????????????\"\"\n\
              '`\"``";

pub const BIG_FISH_1_LEFT_MASK: &'static str = "\
                           111111\n\
          11111111111111111  11111\n\
       111       2      2  11\n\
     11       2     2     1\n\
    1 1          2    2   1     1\n\
 111 1W1                  1   11 1\n\
1111       1111     2     1111 11\n\
 111     1  1  1        2     1\n\
   11 111  1111  2    2   1111 11\n\
     11   2               1   11 1\n\
       111   2     2    2  11   1\n\
          111111111111111111111\n\
            1111             11\n\
              11111";

pub const BIG_FISH_2_RIGHT_ART: &'static str = "\
                _ _ _\n\
             .='\\ \\ \\`\"=,\n\
           .'\\ \\ \\ \\ \\ \\ \\\n\
\\'=._?????/ \\ \\ \\_\\_\\_\\_\\_\\\n\
\\'=._'.??/\\ \\,-\"`- _ - _ - '-.\n\
  \\`=._\\|'.\\/- _ - _ - _ - _- \\\n\
  ;\"= ._\\=./_ -_ -_ {`\"=_    @ \\\n\
   ;\"=_-_=- _ -  _ - {\"=_\"-     \\\n\
   ;_=_--_.,          {_.='   .-/\n\
  ;.=\"` / ';\\        _.     _.-`\n\
  /_.='/ \\/ /;._ _ _{.-;`/\"`\n\
/._=_.'???'/ / / / /{.= /\n\
/.='???????`'./_/_.=`{_/";

pub const BIG_FISH_2_RIGHT_MASK: &'static str = "\
                1 1 1\n\
             1111 1 11111\n\
           111 1 1 1 1 1 1\n\
11111     1 1 1 11111111111\n\
1111111  11 111112 2 2 2 2 111\n\
  111111111112 2 2 2 2 2 2 22 1\n\
  111 1111 12 22 22 11111    W 1\n\
   11111112 2 2  2 2 111111     1\n\
   111111111          11111   111\n\
  11111 11111        11     1111\n\
  111111 11 1111 1 111111111\n\
1111111   11 1 1 1 1111 1\n\
1111       1111111111111";

pub const BIG_FISH_2_LEFT_ART: &'static str = "\
            _ _ _\n\
        ,=\"`/ / /'=.\n\
       / / / / / / /'.\n\
      /_/_/_/_/_/ / / \\?????_.='/\n\
   .-' - _ - _ -`\"-,/ /\\??.'_.='/\n\
  / -_ - _ - _ - _ -\\/.'|/_.=`/\n\
 / @    _=\"`} _- _- _\\.=/_. =\";\n\
/     -\"_=\"} - _  - _ -=_-_\"=;\n\
\\-.   '=._}          ,._--_=_;\n\
 `-._     ._        /;' \\ `\"=.;\n\
     `\"\\`;-.}_ _ _.;\\ \\/ \\'=._\\\n\
        \\ =.}\\ \\ \\ \\ \\'???'._=_.\\\n\
         \\_}`=._\\_\\.'`???????'=.\\";

pub const BIG_FISH_2_LEFT_MASK: &'static str = "\
            1 1 1\n\
        11111 1 1111\n\
       1 1 1 1 1 1 111\n\
      11111111111 1 1 1     11111\n\
   111 2 2 2 2 211111 11  1111111\n\
  1 22 2 2 2 2 2 2 211111111111\n\
 1 W    11111 22 22 2111111 111\n\
1     111111 2 2  2 2 21111111\n\
111   11111          111111111\n\
 1111     11        111 1 11111\n\
     111111111 1 1111 11 111111\n\
        1 1111 1 1 1 11   1111111\n\
         1111111111111       1111";

// ---------------------------------------------------------------------------
// Fishhook and rod
// ---------------------------------------------------------------------------

/// The hook: an eyelet above a double-line shank in columns 5 and 6, the
/// barb to its left and the bend below.
pub const HOOK_ART: &'static str = "      o
     ||
 .   ||
/'\\  ||
 \\___/
  `--'";

/// The colours of the hook: all white.
pub const HOOK_MASK: &'static str = "      W
     WW
 W   WW
WWW  WW
 WWWWW
  WWWW";

pub const ROD_ART: &'static str = "\
 \\\n\
  \\___,--.";

pub const ROD_MASK: &'static str = "\
 Y\n\
  YYYYYYW";

// ---------------------------------------------------------------------------
// Dolphin
// ---------------------------------------------------------------------------

pub const DOLPHIN_RIGHT_FRAMES: [&'static str; 2] = [
    "\
     ,---.  \n\
>~_-'  o }=>\n\
    `---'   ",
    "\
     ,---.  \n\
>~_-'  o }~>\n\
    `---'   ",
];

pub const DOLPHIN_LEFT_FRAMES: [&'static str; 2] = [
    "\
  .---.     \n\
<={ o  '-_~<\n\
   '---'    ",
    "\
  .---.     \n\
<~{ o  '-_~<\n\
   '---'    ",
];

pub const DOLPHIN_RIGHT_MASK: &'static str = "\
     CCCC\n\
CCCCC  W CCC\n\
    CCCCC";

pub const DOLPHIN_LEFT_MASK: &'static str = "\
    CCCC\n\
CCC W  CCCCC\n\
  CCCCC";

// ---------------------------------------------------------------------------
// Submarine
// ---------------------------------------------------------------------------

pub const SUB_ART: &'static str = "\
         __|__\n\
         |   |\n\
  ___   _|___|_   ___\n\
 | + |-/ .   . \\-| + |\n\
 |___|{  (o) (o) }|___|\n\
       \\  ~~~  /\n\
  ~~~~~~`-----'~~~~~~";

pub const SUB_MASK: &'static str = "\
         WWWWW\n\
         W   W\n\
  YYY   YYYYYYY   YYY\n\
 YYYYY YYYYYYYYY YYYYY\n\
 YYYYYYYY WW  WW YYYYYY\n\
       Y  CCC  Y\n\
  CCCCCCYYYYYYYCCCCCC";

// ---------------------------------------------------------------------------
// Whale frames
// ---------------------------------------------------------------------------

/// The pieces of a text between occurrences of `ch` (as `str::split` gives
/// them; a text without `ch` is one piece).
pub open spec fn split_on(s: Seq<char>, ch: char) -> Seq<Seq<char>>
    decreases s.len(),
{
    let k = char_pos(s, ch);
    if k >= s.len() {
        seq![s]
    } else {
        seq![s.take(k as int)] + split_on(s.skip(k + 1 as int), ch)
    }
}

/// The pieces without the empty ones at the end.
pub open spec fn trim_trailing_empty(parts: Seq<Seq<char>>) -> Seq<Seq<char>>
    decreases parts.len(),
{
    if parts.len() > 0 && parts.last().len() == 0 {
        trim_trailing_empty(parts.drop_last())
    } else {
        parts
    }
}

/// The pieces joined with `sep` between each two.
pub open spec fn join(parts: Seq<Seq<char>>, sep: Seq<char>) -> Seq<char>
    decreases parts.len(),
{
    if parts.len() == 0 {
        Seq::empty()
    } else if parts.len() == 1 {
        parts[0]
    } else {
        join(parts.drop_last(), sep) + sep + parts.last()
    }
}

/// `n` spaces.
pub open spec fn spaces(n: nat) -> Seq<char> {
    Seq::new(n, |i: int| ' ')
}

/// A whale frame with a water spout: the spout's lines (without trailing
/// empty ones), each after the first indented by `align` spaces, followed by
/// the whale's body.
pub open spec fn spout_frame(spout: Seq<char>, align: nat, body: Seq<char>) -> Seq<char> {
    join(trim_trailing_empty(split_on(spout, '\n')), seq!['\n'] + spaces(align)) + body
}

fn split_chars(s: &Vec<char>, ch: char) -> (parts: Vec<Vec<char>>)
    ensures
        rows_view(parts@) == split_on(s@, ch),
{
    let n = s.len();
    let mut parts: Vec<Vec<char>> = Vec::new();
    let mut cur: Vec<char> = Vec::new();
    let mut start: usize = 0;
    let mut i: usize = 0;
    assert(s@.skip(0) == s@);
    assert(rows_view(parts@) + split_on(s@, ch) == split_on(s@, ch));
    while i < n
        invariant
            n == s.len(),
            start <= i <= n,
            cur@ == s@.subrange(start as int, i as int),
            forall|j: int| start <= j < i ==> s@[j] != ch,
            rows_view(parts@) + split_on(s@.skip(start as int), ch) == split_on(s@, ch),
        decreases n - i,
    {
        if s[i] == ch {
            let ghost t = s@.skip(start as int);
            let m = i - start;
            assert forall|j: int| 0 <= j < m implies t[j] != ch by {
                assert(t[j] == s@[start + j]);
            }
            assert(t[m as int] == s@[i as int]);
            proof {
                lemma_char_pos(t, ch, m as int);
            }
            assert(t.take(m as int) == cur@);
            assert(t.skip(m + 1) == s@.skip(i + 1));
            let ghost before = rows_view(parts@);
            parts.push(cur);
            assert(rows_view(parts@) == before.push(t.take(m as int)));
            assert(split_on(t, ch) == seq![t.take(m as int)] + split_on(s@.skip(i + 1), ch));
            assert(rows_view(parts@) + split_on(s@.skip(i + 1), ch) == before + split_on(t, ch));
            cur = Vec::new();
            start = i + 1;
        } else {
            cur.push(s[i]);
        }
        i = i + 1;
    }
    let ghost t = s@.skip(start as int);
    assert(t == cur@);
    assert forall|j: int| 0 <= j < t.len() implies t[j] != ch by {
        assert(t[j] == s@[start + j]);
    }
    proof {
        lemma_char_pos(t, ch, t.len() as int);
    }
    let ghost before = rows_view(parts@);
    parts.push(cur);
    assert(rows_view(parts@) == before.push(t));
    assert(split_on(t, ch) == seq![t]);
    parts
}

/// A whale frame with a spout above it: the spout's lines (trailing empty
/// ones dropped), each after the first indented by `spout_align` spaces,
/// followed by the whale's body.
pub fn build_whale_spout_frame(spout: &str, spout_align: usize, body: &str) -> (frame: String)
    ensures
        frame@ == spout_frame(spout@, spout_align as nat, body@),
{
    let sc = chars_of(spout);
    let mut parts = split_chars(&sc, '\n');
    let ghost all = split_on(spout@, '\n');
    while parts.len() > 0 && parts[parts.len() - 1].len() == 0
        invariant
            trim_trailing_empty(rows_view(parts@)) == trim_trailing_empty(all),
        decreases parts.len(),
    {
        let ghost before = rows_view(parts@);
        parts.pop();
        assert(rows_view(parts@) == before.drop_last());
    }
    assert(trim_trailing_empty(rows_view(parts@)) == rows_view(parts@));
    let ghost trimmed = rows_view(parts@);
    let mut sep: Vec<char> = Vec::new();
    sep.push('\n');
    let mut k: usize = 0;
    while k < spout_align
        invariant
            k <= spout_align,
            sep@ == seq!['\n'] + spaces(k as nat),
        decreases spout_align - k,
    {
        sep.push(' ');
        k = k + 1;
        assert(sep@ =~= seq!['\n'] + spaces(k as nat));
    }
    let mut out: Vec<char> = Vec::new();
    let mut i: usize = 0;
    while i < parts.len()
        invariant
            trimmed == rows_view(parts@),
            i <= parts@.len(),
            out@ == join(trimmed.take(i as int), sep@),
        decreases parts.len() - i,
    {
        assert(trimmed.take(i + 1).drop_last() == trimmed.take(i as int));
        assert(trimmed.take(i + 1).last() == parts@[i as int]@);
        if i > 0 {
            let mut j: usize = 0;
            let ghost o = out@;
            while j < sep.len()
                invariant
                    j <= sep@.len(),
                    out@ == o + sep@.take(j as int),
                decreases sep.len() - j,
            {
                out.push(sep[j]);
                j = j + 1;
            }
            assert(sep@.take(sep@.len() as int) == sep@);
        }
        let p = &parts[i];
        let mut j: usize = 0;
        let ghost o = out@;
        while j < p.len()
            invariant
                j <= p@.len(),
                out@ == o + p@.take(j as int),
            decreases p.len() - j,
        {
            out.push(p[j]);
            j = j + 1;
        }
        assert(p@.take(p@.len() as int) == p@);
        if i == 0 {
            assert(trimmed.take(1) == seq![p@]);
        }
        i = i + 1;
    }
    assert(trimmed.take(parts@.len() as int) == trimmed);
    let bc = chars_of(body);
    let mut j: usize = 0;
    let ghost o = out@;
    while j < bc.len()
        invariant
            j <= bc@.len(),
            out@ == o + bc@.take(j as int),
        decreases bc.len() - j,
    {
        out.push(bc[j]);
        j = j + 1;
    }
    assert(bc@.take(bc@.len() as int) == bc@);
    string_from_chars(&out)
}

/// The art of whale frame `i` facing `dir` (0 right, 1 left): five frames
/// without a spout, then the seven spout frames.
pub open spec fn whale_frame_art(dir: int, i: int) -> Seq<char> {
    let body = WHALE_BODIES@[dir]@;
    if i < 5 {
        seq!['\n', '\n', '\n'] + body
    } else {
        spout_frame(WATER_SPOUT@[i - 5]@, if dir == 0 { 11 } else { 1 }, body)
    }
}

proof fn lemma_join_newlines(parts: Seq<Seq<char>>, sep: Seq<char>)
    requires
        parts.len() >= 1,
        forall|j: int| 0 <= j < parts.len() ==> newline_count(#[trigger] parts[j]) == 0,
    ensures
        newline_count(join(parts, sep)) == (parts.len() - 1) * newline_count(sep),
    decreases parts.len(),
{
    let c = newline_count(sep) as int;
    if parts.len() == 1 {
        assert((parts.len() - 1) * c == 0) by (nonlinear_arith)
            requires
                parts.len() == 1,
        ;
    } else {
        let front = parts.drop_last();
        assert forall|j: int| 0 <= j < front.len() implies newline_count(#[trigger] front[j]) == 0 by {
            assert(front[j] == parts[j]);
        }
        lemma_join_newlines(front, sep);
        lemma_newline_count_concat(join(front, sep), sep);
        lemma_newline_count_concat(join(front, sep) + sep, parts.last());
        assert(newline_count(parts.last()) == 0);
        let n = parts.len() as int;
        assert((n - 2) * c + c == (n - 1) * c) by (nonlinear_arith);
    }
}

proof fn lemma_split_step(p: Seq<char>, rest: Seq<char>)
    requires
        forall|j: int| 0 <= j < p.len() ==> p[j] != '\n',
    ensures
        split_on(p + seq!['\n'] + rest, '\n') == seq![p] + split_on(rest, '\n'),
{
    let s = p + seq!['\n'] + rest;
    lemma_char_pos(s, '\n', p.len() as int);
    assert(s.take(p.len() as int) =~= p);
    assert(s.skip(p.len() + 1 as int) =~= rest);
}

proof fn lemma_spout_split(
    sp: Seq<char>,
    p0: Seq<char>,
    p1: Seq<char>,
    p2: Seq<char>,
    p3: Seq<char>,
)
    requires
        sp =~= p0 + seq!['\n'] + (p1 + seq!['\n'] + (p2 + seq!['\n'] + (p3 + seq!['\n']
            + Seq::<char>::empty()))),
        forall|j: int| 0 <= j < p0.len() ==> p0[j] != '\n',
        forall|j: int| 0 <= j < p1.len() ==> p1[j] != '\n',
        forall|j: int| 0 <= j < p2.len() ==> p2[j] != '\n',
        forall|j: int| 0 <= j < p3.len() ==> p3[j] != '\n',
        p3.len() > 0,
    ensures
        trim_trailing_empty(split_on(sp, '\n')) == seq![p0, p1, p2, p3],
{
    let e = Seq::<char>::empty();
    lemma_split_step(p3, e);
    lemma_split_step(p2, p3 + seq!['\n'] + e);
    lemma_split_step(p1, p2 + seq!['\n'] + (p3 + seq!['\n'] + e));
    lemma_split_step(p0, p1 + seq!['\n'] + (p2 + seq!['\n'] + (p3 + seq!['\n'] + e)));
    assert(split_on(e, '\n') == seq![e]);
    let parts = split_on(sp, '\n');
    assert(parts =~= seq![p0, p1, p2, p3, e]);
    assert(parts.drop_last() =~= seq![p0, p1, p2, p3]);
    let t = trim_trailing_empty(parts.drop_last());
    assert(t == parts.drop_last());
}

proof fn lemma_spout_lines(k: int)
    requires
        0 <= k < 7,
    ensures
        trim_trailing_empty(split_on(WATER_SPOUT@[k]@, '\n')).len() == 4,
        forall|j: int|
            0 <= j < 4 ==> newline_count(
                #[trigger] trim_trailing_empty(split_on(WATER_SPOUT@[k]@, '\n'))[j],
            ) == 0,
{
    let sp = WATER_SPOUT@[k]@;
    if k == 0 {
        reveal_strlit("\n\n\n   :\n");
        lemma_spout_split(sp, Seq::<char>::empty(), Seq::<char>::empty(), Seq::<char>::empty(), seq![' ', ' ', ' ', ':']);
    } else if k == 1 {
        reveal_strlit("\n\n   :\n   :\n");
        lemma_spout_split(sp, Seq::<char>::empty(), Seq::<char>::empty(), seq![' ', ' ', ' ', ':'], seq![' ', ' ', ' ', ':']);
    } else if k == 2 {
        reveal_strlit("\n  . .\n  -:-\n   :\n");
        lemma_spout_split(sp, Seq::<char>::empty(), seq![' ', ' ', '.', ' ', '.'], seq![' ', ' ', '-', ':', '-'], seq![' ', ' ', ' ', ':']);
    } else if k == 3 {
        reveal_strlit("\n  . .\n .-:-.\n   :\n");
        lemma_spout_split(sp, Seq::<char>::empty(), seq![' ', ' ', '.', ' ', '.'], seq![' ', '.', '-', ':', '-', '.'], seq![' ', ' ', ' ', ':']);
    } else if k == 4 {
        reveal_strlit("\n  . .\n'.-:-.`\n'  :  '\n");
        lemma_spout_split(sp, Seq::<char>::empty(), seq![' ', ' ', '.', ' ', '.'], seq!['\'', '.', '-', ':', '-', '.', '`'], seq!['\'', ' ', ' ', ':', ' ', ' ', '\'']);
    } else if k == 5 {
        reveal_strlit("\n\n .- -.\n;  :  ;\n");
        lemma_spout_split(sp, Seq::<char>::empty(), Seq::<char>::empty(), seq![' ', '.', '-', ' ', '-', '.'], seq![';', ' ', ' ', ':', ' ', ' ', ';']);
    } else if k == 6 {
        reveal_strlit("\n\n\n;     ;\n");
        lemma_spout_split(sp, Seq::<char>::empty(), Seq::<char>::empty(), Seq::<char>::empty(), seq![';', ' ', ' ', ' ', ' ', ' ', ';']);
    }
    let t = trim_trailing_empty(split_on(sp, '\n'));
    assert forall|j: int| 0 <= j < 4 implies newline_count(#[trigger] t[j]) == 0 by {
        lemma_no_newlines(t[j], t[j].len() as int);
    }
}

proof fn lemma_whale_body_lines(dir: int)
    requires
        0 <= dir < 2,
    ensures
        newline_count(WHALE_BODIES@[dir]@) == 5,
        WHALE_BODIES@[dir]@.len() > 0,
        WHALE_BODIES@[dir]@.last() == '\n',
{
    let b = WHALE_BODIES@[dir]@;
    if dir == 0 {
        reveal_strlit("\n\
        .-----:\n\
      .'       `.\n\
,????/       (o) \\\n\
\\`._/          ,__)\n");
        assert(b =~= seq!['\n', '.', '-', '-', '-', '-', '-', ':', '\n', '.', '\'', ' ', ' ', ' ', ' ', ' ', ' ', ' ', '`', '.', '\n', ',', '?', '?', '?', '?', '/', ' ', ' ', ' ', ' ', ' ', ' ', ' ', '(', 'o', ')', ' ', '\\', '\n', '\\', '`', '.', '_', '/', ' ', ' ', ' ', ' ', ' ', ' ', ' ', ' ', ' ', ' ', ',', '_', '_', ')', '\n']);
    } else {
        reveal_strlit("\n\
    :-----.\n\
  .'       `.\n\
 / (o)       \\????,\n\
(__,          \\_.'/\n");
        assert(b =~= seq!['\n', ':', '-', '-', '-', '-', '-', '.', '\n', '.', '\'', ' ', ' ', ' ', ' ', ' ', ' ', ' ', '`', '.', '\n', '/', ' ', '(', 'o', ')', ' ', ' ', ' ', ' ', ' ', ' ', ' ', '\\', '?', '?', '?', '?', ',', '\n', '(', '_', '_', ',', ' ', ' ', ' ', ' ', ' ', ' ', ' ', ' ', ' ', ' ', '\\', '_', '.', '\'', '/', '\n']);
    }
    reveal_with_fuel(newlines_before, 70);
    assert(newlines_before(b, b.len() as int) == 5);
}

proof fn lemma_spaces_newlines(n: nat)
    ensures
        newline_count(spaces(n)) == 0,
{
    lemma_no_newlines(spaces(n), n as int);
}

/// Every whale frame is eight rows tall: three rows of spout (or of open
/// water) above the five rows of the body.
pub proof fn law_whale_frames_are_eight_rows(dir: int, i: int)
    requires
        0 <= dir < 2,
        0 <= i < 12,
    ensures
        lines_of(whale_frame_art(dir, i)).len() == 8,
{
    let body = WHALE_BODIES@[dir]@;
    lemma_whale_body_lines(dir);
    let art = whale_frame_art(dir, i);
    let head = if i < 5 {
        seq!['\n', '\n', '\n']
    } else {
        join(
            trim_trailing_empty(split_on(WATER_SPOUT@[i - 5]@, '\n')),
            seq!['\n'] + spaces(if dir == 0 { 11 } else { 1 }),
        )
    };
    if i < 5 {
        assert(newline_count(head) == 3) by {
            reveal_with_fuel(newlines_before, 4);
        }
    } else {
        let align: nat = if dir == 0 { 11 } else { 1 };
        let sep = seq!['\n'] + spaces(align);
        lemma_spout_lines(i - 5);
        let t = trim_trailing_empty(split_on(WATER_SPOUT@[i - 5]@, '\n'));
        lemma_join_newlines(t, sep);
        lemma_spaces_newlines(align);
        lemma_newline_count_concat(seq!['\n'], spaces(align));
        assert(newline_count(seq!['\n']) == 1) by {
            reveal_with_fuel(newlines_before, 2);
        }
        assert(newline_count(sep) == 1);
        assert(t.len() == 4);
        assert(newline_count(head) == 3);
    }
    assert(art == head + body);
    lemma_newline_count_concat(head, body);
    assert(art.last() == body.last());
    lemma_lines_count(art);
}

/// Build the whale Shape with all animation frames (5 no-spout + 7 spout).
pub fn make_whale_shape(dir: usize) -> (s: Shape)
    requires
        dir < 2,
    ensures
        s@.len() == 12,
        forall|i: int|
            0 <= i < 12 ==> #[trigger] s@[i] == parsed_frame(
                whale_frame_art(dir as int, i),
                Some(WHALE_MASKS@[dir as int]@),
                Some('?'),
            ),
        forall|i: int| 0 <= i < 12 ==> (#[trigger] s@[i]).height == 8,
{
    let body = WHALE_BODIES[dir];
    let mask = WHALE_MASKS[dir];
    let spout_align: usize = if dir == 0 {
        11
    } else {
        1
    };
    let mut frames: Vec<Frame> = Vec::new();
    let mut i: usize = 0;
    while i < 12
        invariant
            dir < 2,
            body == WHALE_BODIES@[dir as int],
            mask == WHALE_MASKS@[dir as int],
            spout_align == if dir == 0 { 11usize } else { 1usize },
            i <= 12,
            frames@.len() == i,
            forall|j: int|
                0 <= j < i ==> #[trigger] frames@[j]@ == parsed_frame(
                    whale_frame_art(dir as int, j),
                    Some(WHALE_MASKS@[dir as int]@),
                    Some('?'),
                ),
        decreases 12 - i,
    {
        let art: String = if i < 5 {
            let mut v: Vec<char> = Vec::new();
            v.push('\n');
            v.push('\n');
            v.push('\n');
            let bc = chars_of(body);
            let mut j: usize = 0;
            while j < bc.len()
                invariant
                    j <= bc@.len(),
                    v@ == seq!['\n', '\n', '\n'] + bc@.take(j as int),
                decreases bc.len() - j,
            {
                v.push(bc[j]);
                j = j + 1;
            }
            assert(bc@.take(bc@.len() as int) == bc@);
            string_from_chars(&v)
        } else {
            build_whale_spout_frame(WATER_SPOUT[i - 5], spout_align, body)
        };
        assert(art@ == whale_frame_art(dir as int, i as int));
        frames.push(Frame::parse(art.as_str(), Some(mask), Some('?')));
        i = i + 1;
    }
    let s = Shape { frames };
    assert forall|i: int| 0 <= i < 12 implies (#[trigger] s@[i]).height == 8 by {
        law_whale_frames_are_eight_rows(dir as int, i);
    }
    s
}

// ---------------------------------------------------------------------------
// Monster frames
// ---------------------------------------------------------------------------

/// The newer sea monster's two frames, facing right or left.
pub fn build_new_monster_shape(going_right: bool) -> (s: Shape)
    ensures
        going_right ==> s@ == seq![
            parsed_frame(MONSTER_RIGHT_ART_0@, Some(MONSTER_RIGHT_MASK@), Some('?')),
            parsed_frame(MONSTER_RIGHT_ART_1@, Some(MONSTER_RIGHT_MASK@), Some('?')),
        ],
        !going_right ==> s@ == seq![
            parsed_frame(MONSTER_LEFT_ART_0@, Some(MONSTER_LEFT_MASK@), Some('?')),
            parsed_frame(MONSTER_LEFT_ART_1@, Some(MONSTER_LEFT_MASK@), Some('?')),
        ],
{
    let (art_0, art_1, mask_str) = if going_right {
        (MONSTER_RIGHT_ART_0, MONSTER_RIGHT_ART_1, MONSTER_RIGHT_MASK)
    } else {
        (MONSTER_LEFT_ART_0, MONSTER_LEFT_ART_1, MONSTER_LEFT_MASK)
    };
    let mut frames: Vec<(&str, Option<&str>)> = Vec::new();
    frames.push((art_0, Some(mask_str)));
    frames.push((art_1, Some(mask_str)));
    let s = Shape::multi(frames, Some('?'));
    assert(s@.len() == 2);
    s
}

/// The classic sea monster's four frames, facing right or left.
pub fn build_old_monster_shape(going_right: bool) -> (s: Shape)
    ensures
        going_right ==> s@ == seq![
            parsed_frame(OLD_MONSTER_RIGHT_0@, Some(OLD_MONSTER_RIGHT_MASK@), Some('?')),
            parsed_frame(OLD_MONSTER_RIGHT_1@, Some(OLD_MONSTER_RIGHT_MASK@), Some('?')),
            parsed_frame(OLD_MONSTER_RIGHT_2@, Some(OLD_MONSTER_RIGHT_MASK@), Some('?')),
            parsed_frame(OLD_MONSTER_RIGHT_3@, Some(OLD_MONSTER_RIGHT_MASK@), Some('?')),
        ],
        !going_right ==> s@ == seq![
            parsed_frame(OLD_MONSTER_LEFT_0@, Some(OLD_MONSTER_LEFT_MASK@), Some('?')),
            parsed_frame(OLD_MONSTER_LEFT_1@, Some(OLD_MONSTER_LEFT_MASK@), Some('?')),
            parsed_frame(OLD_MONSTER_LEFT_2@, Some(OLD_MONSTER_LEFT_MASK@), Some('?')),
            parsed_frame(OLD_MONSTER_LEFT_3@, Some(OLD_MONSTER_LEFT_MASK@), Some('?')),
        ],
{
    let mut frames: Vec<(&str, Option<&str>)> = Vec::new();
    if going_right {
        frames.push((OLD_MONSTER_RIGHT_0, Some(OLD_MONSTER_RIGHT_MASK)));
        frames.push((OLD_MONSTER_RIGHT_1, Some(OLD_MONSTER_RIGHT_MASK)));
        frames.push((OLD_MONSTER_RIGHT_2, Some(OLD_MONSTER_RIGHT_MASK)));
        frames.push((OLD_MONSTER_RIGHT_3, Some(OLD_MONSTER_RIGHT_MASK)));
    } else {
        frames.push((OLD_MONSTER_LEFT_0, Some(OLD_MONSTER_LEFT_MASK)));
        frames.push((OLD_MONSTER_LEFT_1, Some(OLD_MONSTER_LEFT_MASK)));
        frames.push((OLD_MONSTER_LEFT_2, Some(OLD_MONSTER_LEFT_MASK)));
        frames.push((OLD_MONSTER_LEFT_3, Some(OLD_MONSTER_LEFT_MASK)));
    }
    let s = Shape::multi(frames, Some('?'));
    assert(s@.len() == 4);
    s
}

// ---------------------------------------------------------------------------
// Fishhook shapes
// ---------------------------------------------------------------------------

/// Rows of fishing line above the hook.
pub const LINE_ROWS: usize = 50;

/// A text repeated `n` times.
pub open spec fn repeated(s: Seq<char>, n: nat) -> Seq<char>
    decreases n,
{
    if n == 0 {
        Seq::empty()
    } else {
        repeated(s, (n - 1) as nat) + s
    }
}

fn push_str_chars(out: &mut Vec<char>, s: &str)
    ensures
        final(out)@ == old(out)@ + s@,
{
    let sc = chars_of(s);
    let mut j: usize = 0;
    let ghost o = old(out)@;
    while j < sc.len()
        invariant
            j <= sc@.len(),
            out@ == o + sc@.take(j as int),
        decreases sc.len() - j,
    {
        out.push(sc[j]);
        j = j + 1;
    }
    assert(sc@.take(sc@.len() as int) == sc@);
}

/// The six lines of the hook art.
pub open spec fn hook_art_lines() -> Seq<Seq<char>> {
    seq![
        seq![' ', ' ', ' ', ' ', ' ', ' ', 'o'],
        seq![' ', ' ', ' ', ' ', ' ', '|', '|'],
        seq![' ', '.', ' ', ' ', ' ', '|', '|'],
        seq!['/', '\'', '\\', ' ', ' ', '|', '|'],
        seq![' ', '\\', '_', '_', '_', '/'],
        seq![' ', ' ', '`', '-', '-', '\''],
    ]
}

/// One row of fishing line.
pub open spec fn line_row() -> Seq<char> {
    seq![' ', ' ', ' ', ' ', ' ', '|', '|']
}

proof fn lemma_hook_art_lines()
    ensures
        lines_of(HOOK_ART@) == hook_art_lines(),
{
    reveal_strlit("      o
     ||
 .   ||
/'\\  ||
 \\___/
  `--'");
    let h = hook_art_lines();
    let nl = seq!['\n'];
    assert(HOOK_ART@ =~= h[0] + nl + (h[1] + nl + (h[2] + nl + (h[3] + nl + (h[4] + nl
        + h[5])))));
    lemma_lines_single(h[5]);
    lemma_lines_step(h[4], h[5]);
    lemma_lines_step(h[3], h[4] + nl + h[5]);
    lemma_lines_step(h[2], h[3] + nl + (h[4] + nl + h[5]));
    lemma_lines_step(h[1], h[2] + nl + (h[3] + nl + (h[4] + nl + h[5])));
    lemma_lines_step(h[0], h[1] + nl + (h[2] + nl + (h[3] + nl + (h[4] + nl + h[5]))));
    assert(seq![h[0]] + (seq![h[1]] + (seq![h[2]] + (seq![h[3]] + (seq![h[4]] + seq![h[5]]))))
        =~= h);
}

proof fn lemma_repeated_front(s: Seq<char>, n: nat)
    requires
        n > 0,
    ensures
        repeated(s, n) == s + repeated(s, (n - 1) as nat),
    decreases n,
{
    if n > 1 {
        lemma_repeated_front(s, (n - 1) as nat);
        assert(repeated(s, n) =~= s + repeated(s, (n - 1) as nat));
    } else {
        assert(repeated(s, 0) =~= Seq::<char>::empty());
        assert(repeated(s, n) =~= s + repeated(s, (n - 1) as nat));
    }
}

proof fn lemma_lines_repeated(l: Seq<char>, n: nat, rest: Seq<char>)
    requires
        plain_line(l),
    ensures
        lines_of(repeated(l + seq!['\n'], n) + rest) == Seq::new(n, |i: int| l) + lines_of(rest),
    decreases n,
{
    let s = l + seq!['\n'];
    if n == 0 {
        assert(repeated(s, 0) + rest =~= rest);
        assert(Seq::new(0, |i: int| l) + lines_of(rest) =~= lines_of(rest));
    } else {
        lemma_repeated_front(s, n);
        lemma_lines_repeated(l, (n - 1) as nat, rest);
        let tail = repeated(s, (n - 1) as nat) + rest;
        assert(repeated(s, n) + rest =~= l + seq!['\n'] + tail);
        lemma_lines_step(l, tail);
        assert(seq![l] + (Seq::new((n - 1) as nat, |i: int| l) + lines_of(rest)) =~= Seq::new(
            n,
            |i: int| l,
        ) + lines_of(rest));
    }
}

proof fn lemma_ascii_utf8_len(s: Seq<char>)
    requires
        forall|j: int| 0 <= j < s.len() ==> (s[j] as u32) < 0x80,
    ensures
        utf8_len(s) == s.len(),
    decreases s.len(),
{
    if s.len() > 0 {
        lemma_ascii_utf8_len(s.drop_last());
    }
}

proof fn lemma_max_utf8_len_bounds(lines: Seq<Seq<char>>, m: nat)
    requires
        forall|i: int| 0 <= i < lines.len() ==> byte_width(#[trigger] lines[i]) <= m,
    ensures
        max_utf8_len(lines) <= m,
        forall|i: int| 0 <= i < lines.len() ==> byte_width(#[trigger] lines[i]) <= max_utf8_len(lines),
    decreases lines.len(),
{
    if lines.len() > 0 {
        let front = lines.drop_last();
        assert forall|i: int| 0 <= i < front.len() implies byte_width(#[trigger] front[i]) <= m by {
            assert(front[i] == lines[i]);
        }
        lemma_max_utf8_len_bounds(front, m);
        assert forall|i: int| 0 <= i < lines.len() implies byte_width(#[trigger] lines[i])
            <= max_utf8_len(lines) by {
            if i < front.len() {
                assert(front[i] == lines[i]);
            }
        }
    }
}

/// The lines of the fishing-line-and-hook art: fifty rows of line, then the
/// hook.
proof fn lemma_hook_shape_lines()
    ensures
        lines_of(repeated("     ||\n"@, LINE_ROWS as nat) + HOOK_ART@) == Seq::new(
            50,
            |i: int| line_row(),
        ) + hook_art_lines(),
        max_utf8_len(Seq::new(50, |i: int| line_row()) + hook_art_lines()) == 7,
{
    reveal_strlit("     ||\n");
    assert("     ||\n"@ =~= line_row() + seq!['\n']);
    lemma_hook_art_lines();
    lemma_lines_repeated(line_row(), 50, HOOK_ART@);
    let lines = Seq::new(50, |i: int| line_row()) + hook_art_lines();
    let h = hook_art_lines();
    lemma_ascii_utf8_len(line_row());
    lemma_ascii_utf8_len(h[0]);
    lemma_ascii_utf8_len(h[1]);
    lemma_ascii_utf8_len(h[2]);
    lemma_ascii_utf8_len(h[3]);
    lemma_ascii_utf8_len(h[4]);
    lemma_ascii_utf8_len(h[5]);
    assert forall|i: int| 0 <= i < lines.len() implies byte_width(#[trigger] lines[i]) <= 7 by {
        if i >= 50 {
            assert(lines[i] == h[i - 50]);
        }
    }
    lemma_max_utf8_len_bounds(lines, 7);
    assert(byte_width(lines[0]) == 7);
}

/// What the fishing-line-and-hook frame shows: `LINE_ROWS` rows of `||`
/// in columns 5 and 6, then the six rows of the hook, whose shank continues
/// the line in the same columns.
pub proof fn law_hook_line_meets_shank()
    ensures
        parsed_frame(
            repeated("     ||\n"@, LINE_ROWS as nat) + HOOK_ART@,
            Some(repeated("     WW\n"@, LINE_ROWS as nat) + HOOK_MASK@),
            Some(' '),
        ).height == 56,
        parsed_frame(
            repeated("     ||\n"@, LINE_ROWS as nat) + HOOK_ART@,
            Some(repeated("     WW\n"@, LINE_ROWS as nat) + HOOK_MASK@),
            Some(' '),
        ).width == 7,
        forall|r: int|
            0 <= r < 50 ==> #[trigger] parsed_frame(
            repeated("     ||\n"@, LINE_ROWS as nat) + HOOK_ART@,
            Some(repeated("     WW\n"@, LINE_ROWS as nat) + HOOK_MASK@),
            Some(' '),
        ).cells[r] == seq![
                None,
                None,
                None,
                None,
                None,
                Some('|'),
                Some('|'),
            ],
        forall|k: int|
            0 <= k < 6 ==> #[trigger] parsed_frame(
            repeated("     ||\n"@, LINE_ROWS as nat) + HOOK_ART@,
            Some(repeated("     WW\n"@, LINE_ROWS as nat) + HOOK_MASK@),
            Some(' '),
        ).cells[50 + k] == Seq::new(
                7,
                |c: int| art_cell(hook_art_lines()[k], c, Some(' ')),
            ),
        parsed_frame(
            repeated("     ||\n"@, LINE_ROWS as nat) + HOOK_ART@,
            Some(repeated("     WW\n"@, LINE_ROWS as nat) + HOOK_MASK@),
            Some(' '),
        ).cells[50][6] == Some('o'),
        forall|r: int|
            51 <= r <= 53 ==> #[trigger] parsed_frame(
            repeated("     ||\n"@, LINE_ROWS as nat) + HOOK_ART@,
            Some(repeated("     WW\n"@, LINE_ROWS as nat) + HOOK_MASK@),
            Some(' '),
        ).cells[r][5] == Some('|') && parsed_frame(
            repeated("     ||\n"@, LINE_ROWS as nat) + HOOK_ART@,
            Some(repeated("     WW\n"@, LINE_ROWS as nat) + HOOK_MASK@),
            Some(' '),
        ).cells[r][6] == Some(
                '|',
            ),
{
    lemma_hook_shape_lines();
    let f = parsed_frame(
            repeated("     ||\n"@, LINE_ROWS as nat) + HOOK_ART@,
            Some(repeated("     WW\n"@, LINE_ROWS as nat) + HOOK_MASK@),
            Some(' '),
        );
    let lines = Seq::new(50, |i: int| line_row()) + hook_art_lines();
    let h = hook_art_lines();
    assert forall|r: int| 0 <= r < 50 implies #[trigger] f.cells[r] == seq![
        None,
        None,
        None,
        None,
        None,
        Some('|'),
        Some('|'),
    ] by {
        assert(lines[r] == line_row());
        assert(f.cells[r] =~= seq![None, None, None, None, None, Some('|'), Some('|')]);
    }
    assert forall|k: int| 0 <= k < 6 implies #[trigger] f.cells[50 + k] == Seq::new(
        7,
        |c: int| art_cell(hook_art_lines()[k], c, Some(' ')),
    ) by {
        assert(lines[50 + k] == h[k]);
        assert(f.cells[50 + k] =~= Seq::new(7, |c: int| art_cell(h[k], c, Some(' '))));
    }
    assert(f.cells[50][6] == art_cell(h[0], 6, Some(' ')));
    assert forall|r: int| 51 <= r <= 53 implies #[trigger] f.cells[r][5] == Some('|') && f.cells[r][6]
        == Some('|') by {
        assert(f.cells[r] == Seq::new(7, |c: int| art_cell(h[r - 50], c, Some(' '))));
    }
}

/// The fishing line (`LINE_ROWS` rows of `||` in columns 5 and 6) with the
/// hook below it, its shank in the same columns; spaces are transparent.
pub fn build_hook_shape() -> (s: Shape)
    ensures
        s@ == seq![
            parsed_frame(
                repeated("     ||\n"@, LINE_ROWS as nat) + HOOK_ART@,
                Some(repeated("     WW\n"@, LINE_ROWS as nat) + HOOK_MASK@),
                Some(' '),
            ),
        ],
        s@[0].height == 56,
        s@[0].width == 7,
        forall|r: int|
            0 <= r < 50 ==> #[trigger] s@[0].cells[r] == seq![
                None,
                None,
                None,
                None,
                None,
                Some('|'),
                Some('|'),
            ],
        forall|k: int|
            0 <= k < 6 ==> #[trigger] s@[0].cells[50 + k] == Seq::new(
                7,
                |c: int| art_cell(hook_art_lines()[k], c, Some(' ')),
            ),
        forall|r: int|
            51 <= r <= 53 ==> #[trigger] s@[0].cells[r][5] == Some('|') && s@[0].cells[r][6]
                == Some('|'),
{
    let mut art: Vec<char> = Vec::new();
    let mut mask: Vec<char> = Vec::new();
    let mut r: usize = 0;
    while r < LINE_ROWS
        invariant
            r <= LINE_ROWS,
            art@ == repeated("     ||\n"@, r as nat),
            mask@ == repeated("     WW\n"@, r as nat),
        decreases LINE_ROWS - r,
    {
        push_str_chars(&mut art, "     ||\n");
        push_str_chars(&mut mask, "     WW\n");
        r = r + 1;
    }
    push_str_chars(&mut art, HOOK_ART);
    push_str_chars(&mut mask, HOOK_MASK);
    let art_s = string_from_chars(&art);
    let mask_s = string_from_chars(&mask);
    let s = Shape::single(art_s.as_str(), Some(mask_s.as_str()), Some(' '));
    proof {
        law_hook_line_meets_shank();
    }
    s
}

/// Build the fishing rod shape (surface bobber/rod tip).
pub fn build_rod_shape() -> (s: Shape)
    ensures
        s@ == seq![parsed_frame(ROD_ART@, Some(ROD_MASK@), Some(' '))],
{
    Shape::single(ROD_ART, Some(ROD_MASK), Some(' '))
}

// ---------------------------------------------------------------------------
// Which big object comes next
// ---------------------------------------------------------------------------

/// The big creatures and objects, one of which is on screen at a time.
#[derive(Clone, Copy, Debug, PartialEq, Eq, Structural)]
pub enum RandomObject {
    Shark,
    Ship,
    Whale,
    Monster,
    BigFish,
    Hook,
    Dolphin,
    Submarine,
}

/// The object for a roll of 0..6 among the common ones.
pub open spec fn common_object(roll: int) -> RandomObject {
    if roll == 0 {
        RandomObject::Shark
    } else if roll == 1 {
        RandomObject::Ship
    } else if roll == 2 {
        RandomObject::Whale
    } else if roll == 3 {
        RandomObject::Monster
    } else if roll == 4 {
        RandomObject::BigFish
    } else {
        RandomObject::Hook
    }
}

/// The object a scene starts with for a roll of 0..16 (and, for the rolls
/// 14 and 15, a second roll of 0..6): the six common objects two chances
/// each, the dolphin and the submarine one each, and a re-roll among the
/// common ones.
pub open spec fn scene_object(roll: int, reroll: int) -> RandomObject {
    if roll < 12 {
        common_object(roll / 2)
    } else if roll == 12 {
        RandomObject::Dolphin
    } else if roll == 13 {
        RandomObject::Submarine
    } else {
        common_object(reroll)
    }
}

fn common_object_for(roll: usize) -> (o: RandomObject)
    ensures
        o == common_object(roll as int),
{
    if roll == 0 {
        RandomObject::Shark
    } else if roll == 1 {
        RandomObject::Ship
    } else if roll == 2 {
        RandomObject::Whale
    } else if roll == 3 {
        RandomObject::Monster
    } else if roll == 4 {
        RandomObject::BigFish
    } else {
        RandomObject::Hook
    }
}

/// The object a scene starts with, for given rolls.
pub fn scene_object_for(roll: usize, reroll: usize) -> (o: RandomObject)
    ensures
        o == scene_object(roll as int, reroll as int),
{
    if roll < 12 {
        common_object_for(roll / 2)
    } else if roll == 12 {
        RandomObject::Dolphin
    } else if roll == 13 {
        RandomObject::Submarine
    } else {
        common_object_for(reroll)
    }
}

/// Randomly picks the object a scene starts with; the second roll is only
/// made when the first one asks for a re-roll.
pub fn pick_scene_object() -> (o: RandomObject)
    ensures
        exists|roll: int, reroll: int|
            0 <= roll < 16 && 0 <= reroll < 6 && o == scene_object(roll, reroll),
{
    let roll = random_below(16);
    let reroll = if roll >= 14 {
        random_below(6)
    } else {
        0
    };
    let o = scene_object_for(roll, reroll);
    assert(o == scene_object(roll as int, reroll as int));
    o
}

/// The object that replaces one that left, for a roll of 0..8: shark, ship,
/// whale, monster, big fish, dolphin, submarine, and big fish again (never
/// the hook).
pub open spec fn next_object(roll: int) -> RandomObject {
    if roll == 0 {
        RandomObject::Shark
    } else if roll == 1 {
        RandomObject::Ship
    } else if roll == 2 {
        RandomObject::Whale
    } else if roll == 3 {
        RandomObject::Monster
    } else if roll == 5 {
        RandomObject::Dolphin
    } else if roll == 6 {
        RandomObject::Submarine
    } else {
        RandomObject::BigFish
    }
}

/// The object that replaces one that left, for a given roll.
pub fn next_object_for(roll: usize) -> (o: RandomObject)
    ensures
        o == next_object(roll as int),
{
    if roll == 0 {
        RandomObject::Shark
    } else if roll == 1 {
        RandomObject::Ship
    } else if roll == 2 {
        RandomObject::Whale
    } else if roll == 3 {
        RandomObject::Monster
    } else if roll == 5 {
        RandomObject::Dolphin
    } else if roll == 6 {
        RandomObject::Submarine
    } else {
        RandomObject::BigFish
    }
}

/// Randomly picks the object that replaces one that left.
pub fn pick_next_object() -> (o: RandomObject)
    ensures
        exists|roll: int| 0 <= roll < 8 && o == next_object(roll),
        o != RandomObject::Hook,
{
    let roll = random_below(8);
    next_object_for(roll)
}

} // verus!
