//! The static corpus of filler vocabulary: the fixed, lowercase word list
//! that marks a token as Lorem-Ipsum-like.
use vstd::prelude::*;
use vstd::string::*;

verus! {

pub open spec fn corpus_part_a() -> Seq<Seq<char>> {
    seq!["lorem"@, "ipsum"@, "dolor"@, "sit"@, "amet"@, "consectetur"@, "adipiscing"@, "elit"@, "sed"@, "do"@, "eiusmod"@, "tempor"@, "incididunt"@, "ut"@, "labore"@, "et"@, "dolore"@, "magna"@, "aliqua"@, "enim"@]
}

pub open spec fn corpus_part_b() -> Seq<Seq<char>> {
    seq!["ad"@, "minim"@, "veniam"@, "quis"@, "nostrud"@, "exercitation"@, "ullamco"@, "laboris"@, "nisi"@, "aliquip"@, "ex"@, "ea"@, "commodo"@, "consequat"@, "duis"@, "aute"@, "irure"@, "in"@, "reprehenderit"@, "voluptate"@]
}

pub open spec fn corpus_part_c() -> Seq<Seq<char>> {
    seq!["velit"@, "esse"@, "cillum"@, "eu"@, "fugiat"@, "nulla"@, "pariatur"@, "excepteur"@, "sint"@, "occaecat"@, "cupidatat"@, "non"@, "proident"@, "sunt"@, "culpa"@, "qui"@, "officia"@, "deserunt"@, "mollit"@, "anim"@]
}

pub open spec fn corpus_part_d() -> Seq<Seq<char>> {
    seq!["id"@, "est"@, "phasellus"@, "rutrum"@, "nibh"@, "quis"@, "ligula"@, "malesuada"@, "sollicitudin"@, "mauris"@, "risus"@, "lacinia"@, "vestibulum"@, "nullam"@, "leo"@, "dictum"@, "massa"@, "sagittis"@, "fermentum"@, "sapien"@]
}

pub open spec fn corpus_part_e() -> Seq<Seq<char>> {
    seq!["elementum"@, "vehicula"@, "pellentesque"@, "nunc"@, "turpis"@, "tempus"@, "scelerisque"@, "mi"@, "ac"@, "varius"@, "libero"@, "facilisis"@, "dapibus"@, "nibh"@, "cursus"@, "sem"@, "rhoncus"@, "pulvinar"@, "orci"@, "luctus"@]
}

pub open spec fn corpus_part_f() -> Seq<Seq<char>> {
    seq!["quisque"@, "egestas"@, "metus"@, "at"@, "urna"@, "condimentum"@, "congue"@, "euismod"@, "tortor"@, "habitant"@, "morbi"@, "tristique"@, "senectus"@, "netus"@, "fames"@, "porta"@, "aliquam"@, "interdum"@, "commodo"@, "scelerisque"@]
}

pub open spec fn corpus_part_g() -> Seq<Seq<char>> {
    seq!["felis"@, "sodales"@, "praesent"@, "accumsan"@, "turpis"@, "vivamus"@, "varius"@, "facilisis"@, "sapien"@, "iaculis"@, "dictum"@, "porta"@, "aliquet"@, "integer"@, "vel"@, "augue"@, "venenatis"@, "dui"@, "rutrum"@, "elementum"@]
}

pub open spec fn corpus_part_h() -> Seq<Seq<char>> {
    seq!["leo"@, "curabitur"@, "consectetur"@, "vivamus"@, "ullamcorper"@, "magna"@, "a"@, "nunc"@, "fermentum"@]
}

/// The word list of the filler corpus, in declaration order.
pub open spec fn corpus_model() -> Seq<Seq<char>> {
    corpus_part_a() + corpus_part_b() + corpus_part_c() + corpus_part_d() + corpus_part_e() + corpus_part_f() + corpus_part_g() + corpus_part_h()
}

/// The corpus as a set of words, for membership reasoning.
pub open spec fn corpus_set() -> Set<Seq<char>> {
    corpus_model().to_set()
}

/// Returns the corpus word list. Duplicates in the list are kept; membership
/// is what matters to every caller.
#[verifier::rlimit(100)]
pub fn corpus() -> (r: Vec<&'static str>)
    ensures
        r.deep_view() == corpus_model(),
{
    let mut v: Vec<&'static str> = Vec::new();
    v.push("lorem");
    v.push("ipsum");
    v.push("dolor");
    v.push("sit");
    v.push("amet");
    v.push("consectetur");
    v.push("adipiscing");
    v.push("elit");
    v.push("sed");
    v.push("do");
    v.push("eiusmod");
    v.push("tempor");
    v.push("incididunt");
    v.push("ut");
    v.push("labore");
    v.push("et");
    v.push("dolore");
    v.push("magna");
    v.push("aliqua");
    v.push("enim");
    assert(v.deep_view() =~= corpus_part_a());
    v.push("ad");
    v.push("minim");
    v.push("veniam");
    v.push("quis");
    v.push("nostrud");
    v.push("exercitation");
    v.push("ullamco");
    v.push("laboris");
    v.push("nisi");
    v.push("aliquip");
    v.push("ex");
    v.push("ea");
    v.push("commodo");
    v.push("consequat");
    v.push("duis");
    v.push("aute");
    v.push("irure");
    v.push("in");
    v.push("reprehenderit");
    v.push("voluptate");
    assert(v.deep_view() =~= corpus_part_a() + corpus_part_b());
    v.push("velit");
    v.push("esse");
    v.push("cillum");
    v.push("eu");
    v.push("fugiat");
    v.push("nulla");
    v.push("pariatur");
    v.push("excepteur");
    v.push("sint");
    v.push("occaecat");
    v.push("cupidatat");
    v.push("non");
    v.push("proident");
    v.push("sunt");
    v.push("culpa");
    v.push("qui");
    v.push("officia");
    v.push("deserunt");
    v.push("mollit");
    v.push("anim");
    assert(v.deep_view() =~= corpus_part_a() + corpus_part_b() + corpus_part_c());
    v.push("id");
    v.push("est");
    v.push("phasellus");
    v.push("rutrum");
    v.push("nibh");
    v.push("quis");
    v.push("ligula");
    v.push("malesuada");
    v.push("sollicitudin");
    v.push("mauris");
    v.push("risus");
    v.push("lacinia");
    v.push("vestibulum");
    v.push("nullam");
    v.push("leo");
    v.push("dictum");
    v.push("massa");
    v.push("sagittis");
    v.push("fermentum");
    v.push("sapien");
    assert(v.deep_view() =~= corpus_part_a() + corpus_part_b() + corpus_part_c() + corpus_part_d());
    v.push("elementum");
    v.push("vehicula");
    v.push("pellentesque");
    v.push("nunc");
    v.push("turpis");
    v.push("tempus");
    v.push("scelerisque");
    v.push("mi");
    v.push("ac");
    v.push("varius");
    v.push("libero");
    v.push("facilisis");
    v.push("dapibus");
    v.push("nibh");
    v.push("cursus");
    v.push("sem");
    v.push("rhoncus");
    v.push("pulvinar");
    v.push("orci");
    v.push("luctus");
    assert(v.deep_view() =~= corpus_part_a() + corpus_part_b() + corpus_part_c() + corpus_part_d() + corpus_part_e());
    v.push("quisque");
    v.push("egestas");
    v.push("metus");
    v.push("at");
    v.push("urna");
    v.push("condimentum");
    v.push("congue");
    v.push("euismod");
    v.push("tortor");
    v.push("habitant");
    v.push("morbi");
    v.push("tristique");
    v.push("senectus");
    v.push("netus");
    v.push("fames");
    v.push("porta");
    v.push("aliquam");
    v.push("interdum");
    v.push("commodo");
    v.push("scelerisque");
    assert(v.deep_view() =~= corpus_part_a() + corpus_part_b() + corpus_part_c() + corpus_part_d() + corpus_part_e() + corpus_part_f());
    v.push("felis");
    v.push("sodales");
    v.push("praesent");
    v.push("accumsan");
    v.push("turpis");
    v.push("vivamus");
    v.push("varius");
    v.push("facilisis");
    v.push("sapien");
    v.push("iaculis");
    v.push("dictum");
    v.push("porta");
    v.push("aliquet");
    v.push("integer");
    v.push("vel");
    v.push("augue");
    v.push("venenatis");
    v.push("dui");
    v.push("rutrum");
    v.push("elementum");
    assert(v.deep_view() =~= corpus_part_a() + corpus_part_b() + corpus_part_c() + corpus_part_d() + corpus_part_e() + corpus_part_f() + corpus_part_g());
    v.push("leo");
    v.push("curabitur");
    v.push("consectetur");
    v.push("vivamus");
    v.push("ullamcorper");
    v.push("magna");
    v.push("a");
    v.push("nunc");
    v.push("fermentum");
    assert(v.deep_view() =~= corpus_part_a() + corpus_part_b() + corpus_part_c() + corpus_part_d() + corpus_part_e() + corpus_part_f() + corpus_part_g() + corpus_part_h());
    v
}

/// Whether `w` is a corpus word.
pub fn corpus_contains(w: &str) -> (r: bool)
    ensures
        r == corpus_set().contains(w@),
{
    let list = corpus();
    let target: String = w.to_owned();
    let mut k: usize = 0;
    let mut found = false;
    while k < list.len()
        invariant
            0 <= k <= list@.len(),
            list.deep_view() == corpus_model(),
            target@ == w@,
            found == exists|p: int| 0 <= p < k && corpus_model()[p] == w@,
        decreases list@.len() - k,
    {
        let entry: String = list[k].to_owned();
        let hit = entry == target;
        proof {
            assert(list.deep_view()[k as int] == list@[k as int]@);
            assert(entry@ == list@[k as int]@);
            assert(target@ == w@);
            assert(hit == (corpus_model()[k as int] == w@));
        }
        if hit {
            found = true;
        }
        k = k + 1;
    }
    proof {
        assert(corpus_set().contains(w@) == corpus_model().contains(w@));
    }
    found
}

} // verus!
