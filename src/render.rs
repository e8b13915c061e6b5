use vstd::prelude::*;
use vstd::string::StringExecFns;

verus! {

/// `parts` one after another, with `, ` between neighbours.
pub open spec fn joined(parts: Seq<Seq<char>>) -> Seq<char>
    decreases parts.len(),
{
    if parts.len() == 0 {
        Seq::empty()
    } else if parts.len() == 1 {
        parts[0]
    } else {
        joined(parts.drop_last()) + seq![',', ' '] + parts.last()
    }
}

/// `parts` joined by `, ` and enclosed in brackets.
pub open spec fn bracketed(parts: Seq<Seq<char>>) -> Seq<char> {
    seq!['['] + joined(parts) + seq![']']
}

/// The texts of `parts` joined by `, ` and enclosed in brackets:
/// `["1", "2"]` gives `[1, 2]`, no parts give `[]`.
pub fn render_list(parts: &Vec<String>) -> (r: String)
    ensures
        r@ == bracketed(parts@.map_values(|p: String| p@)),
{
    let ghost texts = parts@.map_values(|p: String| p@);
    let mut out = String::from_str("[");
    proof {
        reveal_strlit("[");
        reveal_strlit(", ");
        reveal_strlit("]");
        assert(texts.take(0) =~= Seq::<Seq<char>>::empty());
    }
    let mut i: usize = 0;
    while i < parts.len()
        invariant
            i <= parts.len(),
            texts == parts@.map_values(|p: String| p@),
            out@ == seq!['['] + joined(texts.take(i as int)),
        decreases parts.len() - i,
    {
        let ghost before = out@;
        if i > 0 {
            out.append(", ");
        }
        out.append(parts[i].as_str());
        proof {
            let next = texts.take(i + 1);
            assert(next.drop_last() =~= texts.take(i as int));
            assert(next.last() == parts@[i as int]@);
            if i == 0 {
                assert(joined(next) == parts@[0]@);
                assert(out@ =~= seq!['['] + joined(next));
            } else {
                reveal_strlit(", ");
                assert(", "@ =~= seq![',', ' ']);
                assert(joined(next) == joined(texts.take(i as int)) + seq![',', ' '] + parts@[i as int]@);
                assert(out@ =~= seq!['['] + joined(next));
            }
        }
        i = i + 1;
    }
    out.append("]");
    proof {
        reveal_strlit("]");
        assert(texts.take(parts.len() as int) =~= texts);
    }
    out
}

} // verus!
