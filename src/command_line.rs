use vstd::prelude::*;

verus! {

/// Unicode white space, as `char::is_whitespace` classifies it.
pub open spec fn is_space(c: char) -> bool {
    let u = c as u32;
    (0x09 <= u <= 0x0d) || u == 0x20 || u == 0x85 || u == 0xa0 || u == 0x1680 || (0x2000 <= u
        <= 0x200a) || u == 0x2028 || u == 0x2029 || u == 0x202f || u == 0x205f || u == 0x3000
}

/// The words of `s` after the words in `done` and the partial word `cur`:
/// maximal runs of characters that are not white space, in order.
pub open spec fn words_after(s: Seq<char>, done: Seq<Seq<char>>, cur: Seq<char>) -> Seq<Seq<char>>
    decreases s.len(),
{
    let closed = if cur.len() > 0 {
        done.push(cur)
    } else {
        done
    };
    if s.len() == 0 {
        closed
    } else if is_space(s[0]) {
        words_after(s.drop_first(), closed, Seq::empty())
    } else {
        words_after(s.drop_first(), done, cur.push(s[0]))
    }
}

/// The white-space separated words of `s`.
pub open spec fn words(s: Seq<char>) -> Seq<Seq<char>> {
    words_after(s, Seq::empty(), Seq::empty())
}

fn space(c: char) -> (r: bool)
    ensures
        r == is_space(c),
{
    let u = c as u32;
    (0x09 <= u && u <= 0x0d) || u == 0x20 || u == 0x85 || u == 0xa0 || u == 0x1680 || (0x2000 <= u
        && u <= 0x200a) || u == 0x2028 || u == 0x2029 || u == 0x202f || u == 0x205f || u == 0x3000
}

proof fn lemma_words_step(s: Seq<char>, i: int, done: Seq<Seq<char>>, cur: Seq<char>)
    requires
        0 <= i < s.len(),
    ensures
        words_after(s.skip(i), done, cur) == if is_space(s[i]) {
            words_after(
                s.skip(i + 1),
                if cur.len() > 0 {
                    done.push(cur)
                } else {
                    done
                },
                Seq::empty(),
            )
        } else {
            words_after(s.skip(i + 1), done, cur.push(s[i]))
        },
{
    assert(s.skip(i).drop_first() =~= s.skip(i + 1));
    assert(s.skip(i)[0] == s[i]);
}

/// Splits a command line into its words: the program, then its
/// arguments.
pub fn split_command_line(line: &str) -> (r: Vec<String>)
    ensures
        r@.map_values(|w: String| w@) == words(line@),
{
    let n = line.unicode_len();
    let mut out: Vec<String> = Vec::new();
    let mut start: usize = 0;
    let mut i: usize = 0;
    proof {
        assert(line@.skip(0) =~= line@);
        assert(line@.subrange(0, 0) =~= Seq::<char>::empty());
        assert(out@.map_values(|w: String| w@) =~= Seq::<Seq<char>>::empty());
    }
    while i < n
        invariant
            n == line@.len(),
            start <= i <= n,
            words(line@) == words_after(
                line@.skip(i as int),
                out@.map_values(|w: String| w@),
                line@.subrange(start as int, i as int),
            ),
        decreases n - i,
    {
        let c = line.get_char(i);
        proof {
            lemma_words_step(
                line@,
                i as int,
                out@.map_values(|w: String| w@),
                line@.subrange(start as int, i as int),
            );
        }
        if space(c) {
            if start < i {
                let ghost before = out@;
                let word = String::from_str(line.substring_char(start, i));
                out.push(word);
                proof {
                    assert(out@.map_values(|w: String| w@) =~= before.map_values(|w: String| w@).push(
                        line@.subrange(start as int, i as int),
                    ));
                }
            }
            i = i + 1;
            start = i;
            proof {
                assert(line@.subrange(start as int, i as int) =~= Seq::<char>::empty());
            }
        } else {
            proof {
                assert(line@.subrange(start as int, i + 1) =~= line@.subrange(start as int, i as int).push(c));
            }
            i = i + 1;
        }
    }
    proof {
        assert(line@.skip(i as int) =~= Seq::<char>::empty());
    }
    if start < i {
        let ghost before = out@;
        let word = String::from_str(line.substring_char(start, i));
        out.push(word);
        proof {
            assert(out@.map_values(|w: String| w@) =~= before.map_values(|w: String| w@).push(
                line@.subrange(start as int, i as int),
            ));
        }
    }
    out
}

} // verus!
