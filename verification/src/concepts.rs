//! Visual concepts: reusable meanings for the library, and the curated
//! economy theme it is seeded with.
use vstd::prelude::*;
use crate::export::views;

verus! {

/// A concept to seed: its title, what it literally shows, what it means,
/// where it fits, what must never appear, what to avoid, and its priority.
pub struct ConceptSeed {
    pub title: String,
    pub literal_description: Vec<String>,
    pub meanings: Vec<String>,
    pub positive_contexts: Vec<String>,
    pub hard_exclusions: Vec<String>,
    pub negative_contexts: Vec<String>,
    pub priority: i32,
}

/// The economy theme: slug, title and description.
pub open spec fn economy_theme_text() -> (Seq<char>, Seq<char>, Seq<char>) {
    ("economia-dinero-negocios"@, "Economía, dinero y negocios"@,
        "Conceptos reutilizables para noticias y finanzas personales"@)
}

/// The economy theme's slug, title and description.
pub fn economy_theme() -> (r: (&'static str, &'static str, &'static str))
    ensures
        (r.0@, r.1@, r.2@) == economy_theme_text(),
{
    (
        "economia-dinero-negocios",
        "Economía, dinero y negocios",
        "Conceptos reutilizables para noticias y finanzas personales",
    )
}

/// The curated concepts of the economy theme, each as (title, literal,
/// meanings, positive contexts, hard exclusions).
pub open spec fn economy_seeds() -> Seq<(Seq<char>, Seq<Seq<char>>, Seq<Seq<char>>, Seq<Seq<char>>, Seq<Seq<char>>)> {
    seq![
        ("Persona comparando precios en supermercado"@,
            seq!["persona"@, "supermercado"@, "etiquetas de precios"@],
            seq!["inflación"@, "costo de vida"@],
            seq!["economía doméstica"@, "presupuesto familiar"@],
            seq!["criptomonedas"@, "lujo"@, "marcas comerciales"@]),
        ("Familia preparando presupuesto mensual"@,
            seq!["familia"@, "mesa"@, "calculadora"@, "papel"@],
            seq!["planificación"@, "ahorro"@],
            seq!["economía doméstica"@],
            seq!["lujo"@, "criptomonedas"@]),
        ("Comerciante revisando ventas"@,
            seq!["comercio"@, "caja"@, "tablet"@],
            seq!["ventas"@, "PYME"@],
            seq!["negocios"@, "retail"@],
            seq!["bolsa de valores"@, "futurista"@]),
        ("Persona organizando sus ahorros"@,
            seq!["persona"@, "monedas"@, "alcancía"@],
            seq!["ahorro"@, "disciplina financiera"@],
            seq!["finanzas personales"@],
            seq!["criptomonedas"@, "billetes flotando"@]),
        ("Cliente pagando con teléfono"@,
            seq!["pago móvil"@, "smartphone"@, "TPV"@],
            seq!["pagos digitales"@],
            seq!["comercio"@, "tecnología cotidiana"@],
            seq!["hacking"@, "criptomonedas"@])
    ]
}

/// `c` is the seed made of entry `e`: a priority 80 concept that avoids
/// ostentatious luxury and crypto speculation.
pub open spec fn seeded(c: ConceptSeed, e: (Seq<char>, Seq<Seq<char>>, Seq<Seq<char>>, Seq<Seq<char>>, Seq<Seq<char>>)) -> bool {
    &&& c.title@ == e.0
    &&& views(c.literal_description@) == e.1
    &&& views(c.meanings@) == e.2
    &&& views(c.positive_contexts@) == e.3
    &&& views(c.hard_exclusions@) == e.4
    &&& views(c.negative_contexts@) == seq!["lujo ostentoso"@, "especulación cripto"@]
    &&& c.priority == 80
}

fn push_text(v: &mut Vec<String>, t: &str)
    ensures
        views(final(v)@) == views(old(v)@).push(t@),
{
    let ghost b = views(v@);
    v.push(String::from_str(t));
    proof {
        assert(views(v@) =~= b.push(t@));
    }
}

fn texts1(a: &str) -> (r: Vec<String>)
    ensures
        views(r@) == seq![a@],
{
    let mut v: Vec<String> = Vec::new();
    proof {
        assert(views(v@) =~= Seq::<Seq<char>>::empty());
    }
    push_text(&mut v, a);
    proof {
        assert(views(v@) =~= seq![a@]);
    }
    v
}

fn texts2(a: &str, b: &str) -> (r: Vec<String>)
    ensures
        views(r@) == seq![a@, b@],
{
    let mut v = texts1(a);
    push_text(&mut v, b);
    proof {
        assert(views(v@) =~= seq![a@, b@]);
    }
    v
}

fn texts3(a: &str, b: &str, c: &str) -> (r: Vec<String>)
    ensures
        views(r@) == seq![a@, b@, c@],
{
    let mut v = texts2(a, b);
    push_text(&mut v, c);
    proof {
        assert(views(v@) =~= seq![a@, b@, c@]);
    }
    v
}

fn texts4(a: &str, b: &str, c: &str, d: &str) -> (r: Vec<String>)
    ensures
        views(r@) == seq![a@, b@, c@, d@],
{
    let mut v = texts3(a, b, c);
    push_text(&mut v, d);
    proof {
        assert(views(v@) =~= seq![a@, b@, c@, d@]);
    }
    v
}

fn seed(title: &str, lit: Vec<String>, mean: Vec<String>, pos: Vec<String>, hard: Vec<String>) -> (c: ConceptSeed)
    ensures
        seeded(c, (title@, views(lit@), views(mean@), views(pos@), views(hard@))),
{
    let mut neg: Vec<String> = Vec::new();
    proof {
        assert(views(neg@) =~= Seq::<Seq<char>>::empty());
    }
    push_text(&mut neg, "lujo ostentoso");
    push_text(&mut neg, "especulación cripto");
    proof {
        assert(views(neg@) =~= seq!["lujo ostentoso"@, "especulación cripto"@]);
    }
    ConceptSeed {
        title: String::from_str(title),
        literal_description: lit,
        meanings: mean,
        positive_contexts: pos,
        hard_exclusions: hard,
        negative_contexts: neg,
        priority: 80,
    }
}

/// The curated concepts of the economy theme, in order.
pub fn seed_economy_theme() -> (r: Vec<ConceptSeed>)
    ensures
        r@.len() == economy_seeds().len(),
        forall|k: int| 0 <= k < r@.len() ==> seeded(#[trigger] r@[k], economy_seeds()[k]),
{
    let mut out: Vec<ConceptSeed> = Vec::new();
    let ghost e = economy_seeds();
    let c0 = seed(
        "Persona comparando precios en supermercado",
        texts3("persona", "supermercado", "etiquetas de precios"),
        texts2("inflación", "costo de vida"),
        texts2("economía doméstica", "presupuesto familiar"),
        texts3("criptomonedas", "lujo", "marcas comerciales"),
    );
    let c1 = seed(
        "Familia preparando presupuesto mensual",
        texts4("familia", "mesa", "calculadora", "papel"),
        texts2("planificación", "ahorro"),
        texts1("economía doméstica"),
        texts2("lujo", "criptomonedas"),
    );
    let c2 = seed(
        "Comerciante revisando ventas",
        texts3("comercio", "caja", "tablet"),
        texts2("ventas", "PYME"),
        texts2("negocios", "retail"),
        texts2("bolsa de valores", "futurista"),
    );
    let c3 = seed(
        "Persona organizando sus ahorros",
        texts3("persona", "monedas", "alcancía"),
        texts2("ahorro", "disciplina financiera"),
        texts1("finanzas personales"),
        texts2("criptomonedas", "billetes flotando"),
    );
    let c4 = seed(
        "Cliente pagando con teléfono",
        texts3("pago móvil", "smartphone", "TPV"),
        texts1("pagos digitales"),
        texts2("comercio", "tecnología cotidiana"),
        texts2("hacking", "criptomonedas"),
    );
    assert(seeded(c0, e[0]));
    assert(seeded(c1, e[1]));
    assert(seeded(c2, e[2]));
    assert(seeded(c3, e[3]));
    assert(seeded(c4, e[4]));
    out.push(c0);
    out.push(c1);
    out.push(c2);
    out.push(c3);
    out.push(c4);
    out
}

} // verus!
