use vstd::prelude::*;

use crate::codificar::digito;
use crate::codificar::digitos;
use crate::codificar::fila_codificada;
use crate::codificar::letra_direccion;
use crate::codificar::token_objeto;
use crate::falla::Falla;
use crate::model::celda::Celda;
use crate::model::direccion::Direccion;
use crate::model::laberinto::Laberinto;
use crate::model::laberinto::es_digito;
use crate::model::laberinto::es_espacio;
use crate::model::laberinto::fila_decodificada;
use crate::model::laberinto::filas_decodificadas;
use crate::model::laberinto::fin_digitos;
use crate::model::laberinto::laberinto_decodificado;
use crate::model::laberinto::letra_a_direccion;
use crate::model::laberinto::objeto_decodificado;
use crate::model::laberinto::sin_espacios;
use crate::model::laberinto::valor_digitos;
use crate::model::laberinto::valor_entero;
use crate::model::objeto::Objeto;
use crate::model::objeto::objeto_valido;

verus! {

/// Las lineas que escribe la codificacion de una grilla, una por fila.
/// `grid_codificada` junta exactamente estas lineas con saltos de
/// linea.
pub open spec fn lineas_codificadas(g: Seq<Seq<Celda>>) -> Seq<Seq<char>> {
    Seq::new(g.len(), |y: int| fila_codificada(g[y], g[y].len() as int))
}

/// Los tokens de las celdas de una fila a partir de la columna `j`,
/// concatenados sin separadores: lo que queda de una linea codificada
/// cuando se le quitan los espacios.
spec fn cola_de_tokens(f: Seq<Celda>, j: int) -> Seq<char>
    decreases f.len() - j,
{
    if j < 0 || j >= f.len() {
        Seq::empty()
    } else {
        token_objeto(f[j].objeto) + cola_de_tokens(f, j + 1)
    }
}

/// El caracter de un digito es un digito, con el valor que le toca.
proof fn lema_digito_correcto(d: int)
    requires
        0 <= d <= 9,
    ensures
        es_digito(digito(d)),
        digito(d) as u32 == 48 + d,
{
}

/// La escritura decimal de `v` tiene al menos un caracter, todos son
/// digitos y su valor es `v`.
proof fn lema_digitos_correctos(v: int)
    requires
        v >= 0,
    ensures
        digitos(v).len() >= 1,
        forall|k: int| 0 <= k < digitos(v).len() ==> es_digito(#[trigger] digitos(v)[k]),
        valor_digitos(digitos(v)) == v,
    decreases v,
{
    if v < 10 {
        lema_digito_correcto(v);
        assert(digitos(v) == seq![digito(v)]);
        assert(seq![digito(v)].drop_last() =~= Seq::<char>::empty());
        assert(valor_digitos(seq![digito(v)].drop_last()) == 0);
        assert(valor_digitos(digitos(v)) == 0 * 10 + (digito(v) as u32 - 48));
    } else {
        lema_digitos_correctos(v / 10);
        lema_digito_correcto(v % 10);
        let ds = digitos(v);
        assert(ds == digitos(v / 10).push(digito(v % 10)));
        assert(ds.drop_last() =~= digitos(v / 10));
        assert(valor_digitos(ds) == valor_digitos(digitos(v / 10)) * 10 + (digito(v % 10) as u32
            - 48));
        assert(valor_digitos(ds) == (v / 10) * 10 + (v % 10));
        assert((v / 10) * 10 + (v % 10) == v) by (nonlinear_arith)
            requires
                v >= 10,
        ;
        assert(forall|k: int| 0 <= k < ds.len() - 1 ==> #[trigger] ds[k] == digitos(v / 10)[k]);
    }
}

/// Si de `i` a `j` hay solo digitos y en `j` ya no (o se acabo la
/// linea), la corrida de digitos que empieza en `i` termina en `j`.
proof fn lema_fin_digitos_en(s: Seq<char>, i: int, j: int)
    requires
        0 <= i <= j <= s.len(),
        forall|k: int| i <= k < j ==> es_digito(#[trigger] s[k]),
        j == s.len() || !es_digito(s[j]),
    ensures
        fin_digitos(s, i) == j,
    decreases j - i,
{
    if i < j {
        lema_fin_digitos_en(s, i + 1, j);
    }
}

/// Una sucesion sin caracteres de espacio queda igual al quitarselos.
proof fn lema_sin_espacios_identidad(s: Seq<char>)
    requires
        forall|k: int| 0 <= k < s.len() ==> !es_espacio(#[trigger] s[k]),
    ensures
        sin_espacios(s) == s,
    decreases s.len(),
{
    if s.len() > 0 {
        lema_sin_espacios_identidad(s.drop_last());
        assert(sin_espacios(s.drop_last()).push(s.last()) =~= s);
    }
}

/// Quitar espacios distribuye sobre la concatenacion.
proof fn lema_sin_espacios_concatenacion(a: Seq<char>, b: Seq<char>)
    ensures
        sin_espacios(a + b) == sin_espacios(a) + sin_espacios(b),
    decreases b.len(),
{
    if b.len() == 0 {
        assert(a + b =~= a);
        assert(sin_espacios(a) + Seq::<char>::empty() =~= sin_espacios(a));
    } else {
        lema_sin_espacios_concatenacion(a, b.drop_last());
        assert((a + b).drop_last() =~= a + b.drop_last());
        assert((a + b).last() == b.last());
        if !es_espacio(b.last()) {
            assert(sin_espacios(a) + sin_espacios(b.drop_last()).push(b.last()) =~= (sin_espacios(
                a,
            ) + sin_espacios(b.drop_last())).push(b.last()));
        }
    }
}

/// Ningun token contiene caracteres de espacio.
proof fn lema_token_sin_espacios(o: Objeto)
    requires
        objeto_valido(o),
    ensures
        forall|k: int| 0 <= k < token_objeto(o).len() ==> !es_espacio(#[trigger] token_objeto(o)[k]),
{
    match o {
        Objeto::Enemigo(v) => {
            lema_digitos_correctos(v as int);
        },
        Objeto::Bomba(a) => {
            lema_digitos_correctos(a as int);
        },
        Objeto::BombaTraspaso(a) => {
            lema_digitos_correctos(a as int);
        },
        _ => {},
    }
}

/// Todo token empieza con una letra, nunca con un digito.
proof fn lema_token_no_empieza_con_digito(o: Objeto)
    ensures
        token_objeto(o).len() >= 1,
        !es_digito(token_objeto(o)[0]),
{
    match o {
        Objeto::Enemigo(v) => {
            assert(token_objeto(o)[0] == 'F');
        },
        Objeto::Bomba(a) => {
            assert(token_objeto(o)[0] == 'B');
        },
        Objeto::BombaTraspaso(a) => {
            assert(token_objeto(o)[0] == 'S');
        },
        _ => {},
    }
}

/// La linea codificada de una fila, sin sus espacios, es la
/// concatenacion de los tokens de sus celdas.
proof fn lema_linea_sin_espacios(f: Seq<Celda>, n: int)
    requires
        0 <= n <= f.len(),
        forall|i: int| 0 <= i < f.len() ==> objeto_valido(#[trigger] f[i].objeto),
    ensures
        sin_espacios(fila_codificada(f, n)) == cola_de_tokens(f.subrange(0, n), 0),
    decreases n,
{
    if n <= 0 {
        assert(sin_espacios(fila_codificada(f, 0)) =~= Seq::<char>::empty());
        assert(cola_de_tokens(f.subrange(0, 0), 0) =~= Seq::<char>::empty());
    } else if n == 1 {
        lema_token_sin_espacios(f[0].objeto);
        lema_sin_espacios_identidad(token_objeto(f[0].objeto));
        let p = f.subrange(0, 1);
        assert(cola_de_tokens(p, 0) == token_objeto(p[0].objeto) + cola_de_tokens(p, 1));
        assert(token_objeto(f[0].objeto) + Seq::<char>::empty() =~= token_objeto(f[0].objeto));
    } else {
        lema_linea_sin_espacios(f, n - 1);
        lema_token_sin_espacios(f[n - 1].objeto);
        lema_sin_espacios_identidad(token_objeto(f[n - 1].objeto));
        lema_sin_espacios_concatenacion(fila_codificada(f, n - 1), seq![' ']);
        lema_sin_espacios_concatenacion(
            fila_codificada(f, n - 1) + seq![' '],
            token_objeto(f[n - 1].objeto),
        );
        assert(seq![' '].drop_last() =~= Seq::<char>::empty());
        assert(sin_espacios(seq![' '].drop_last()) == Seq::<char>::empty());
        assert(sin_espacios(seq![' ']) == Seq::<char>::empty());
        assert(sin_espacios(fila_codificada(f, n - 1)) + Seq::<char>::empty() =~= sin_espacios(
            fila_codificada(f, n - 1),
        ));
        // la cola de la fila recortada en n es la de n - 1 mas su token
        lema_cola_agrega_token(f, n);
    }
}

/// Recortar una celda mas agrega su token al final de la concatenacion.
proof fn lema_cola_agrega_token(f: Seq<Celda>, n: int)
    requires
        1 <= n <= f.len(),
    ensures
        cola_de_tokens(f.subrange(0, n), 0) == cola_de_tokens(f.subrange(0, n - 1), 0)
            + token_objeto(f[n - 1].objeto),
{
    let p = f.subrange(0, n);
    lema_cola_parte(p, 0);
    assert(p.subrange(0, p.len() - 1) =~= f.subrange(0, n - 1));
    assert(p.last() == f[n - 1]);
}

/// La concatenacion de tokens desde `j`, escrita celda por celda.
proof fn lema_cola_parte(f: Seq<Celda>, j: int)
    requires
        1 <= f.len(),
        0 <= j <= f.len(),
    ensures
        cola_de_tokens(f, j) == cola_de_tokens(f.subrange(0, f.len() - 1), j) + (if j < f.len() {
            token_objeto(f.last().objeto)
        } else {
            Seq::<char>::empty()
        }),
    decreases f.len() - j,
{
    if j >= f.len() {
        assert(cola_de_tokens(f.subrange(0, f.len() - 1), j) =~= Seq::<char>::empty());
        assert(cola_de_tokens(f, j) + Seq::<char>::empty() =~= cola_de_tokens(f, j));
        assert(cola_de_tokens(f, j) =~= Seq::<char>::empty());
    } else {
        lema_cola_parte(f, j + 1);
        let rec = f.subrange(0, f.len() - 1);
        if j == f.len() - 1 {
            assert(cola_de_tokens(rec, j) =~= Seq::<char>::empty());
            assert(cola_de_tokens(f, j + 1) =~= Seq::<char>::empty());
            assert(Seq::<char>::empty() + token_objeto(f[j].objeto) =~= token_objeto(f[j].objeto));
            assert(token_objeto(f[j].objeto) + Seq::<char>::empty() =~= token_objeto(
                f[j].objeto,
            ));
        } else {
            assert(rec[j] == f[j]);
            assert(cola_de_tokens(rec, j) == token_objeto(rec[j].objeto) + cola_de_tokens(
                rec,
                j + 1,
            ));
            assert(token_objeto(f[j].objeto) + (cola_de_tokens(rec, j + 1) + token_objeto(
                f.last().objeto,
            )) =~= (token_objeto(f[j].objeto) + cola_de_tokens(rec, j + 1)) + token_objeto(
                f.last().objeto,
            ));
        }
    }
}

/// Decodificar la concatenacion de los tokens de las celdas `j` en
/// adelante devuelve exactamente esas celdas.
proof fn lema_decodifica_cola(s: Seq<char>, f: Seq<Celda>, j: int, p: int, fila: int)
    requires
        0 <= j <= f.len(),
        0 <= p <= s.len(),
        0 <= fila <= usize::MAX,
        s.subrange(p, s.len() as int) == cola_de_tokens(f, j),
        forall|i: int|
            j <= i < f.len() ==> {
                let celda = #[trigger] f[i];
                &&& celda.x == i
                &&& celda.y == fila
                &&& objeto_valido(celda.objeto)
            },
    ensures
        fila_decodificada(s, p, j, fila) == Ok::<Seq<Celda>, Falla>(
            f.subrange(j, f.len() as int),
        ),
    decreases f.len() - j,
{
    let resto = s.subrange(p, s.len() as int);
    if j >= f.len() {
        assert(resto.len() == 0);
        assert(p == s.len());
        assert(f.subrange(j, f.len() as int) =~= Seq::<Celda>::empty());
    } else {
        let o = f[j].objeto;
        let t = token_objeto(o);
        lema_token_no_empieza_con_digito(o);
        assert(resto == t + cola_de_tokens(f, j + 1));
        let tl = t.len() as int;
        assert(p + tl <= s.len());
        assert forall|k: int| 0 <= k < tl implies s[p + k] == #[trigger] t[k] by {
            assert(resto[k] == s[p + k]);
            assert(resto[k] == (t + cola_de_tokens(f, j + 1))[k]);
        }
        assert(cola_de_tokens(f, j + 1).len() == resto.len() - tl);
        assert forall|i: int|
            0 <= i < resto.len() - tl implies #[trigger] s.subrange(p + tl, s.len() as int)[i]
                == cola_de_tokens(f, j + 1)[i] by {
            assert(s.subrange(p + tl, s.len() as int)[i] == s[p + tl + i]);
            assert(resto[tl + i] == s[p + tl + i]);
            assert(resto[tl + i] == (t + cola_de_tokens(f, j + 1))[tl + i]);
        }
        assert(s.subrange(p + tl, s.len() as int) =~= cola_de_tokens(f, j + 1));
        if j + 1 < f.len() {
            lema_token_no_empieza_con_digito(f[j + 1].objeto);
            assert(cola_de_tokens(f, j + 1) == token_objeto(f[j + 1].objeto) + cola_de_tokens(
                f,
                j + 2,
            ));
            assert(s.subrange(p + tl, s.len() as int)[0] == s[p + tl]);
            assert(s[p + tl] == token_objeto(f[j + 1].objeto)[0]);
        } else {
            assert(cola_de_tokens(f, j + 1).len() == 0);
        }
        assert(p + tl == s.len() || !es_digito(s[p + tl]));
        match o {
            Objeto::Enemigo(v) => {
                let ds = digitos(v as int);
                assert(t[0] == 'F');
                assert(s[p] == t[0]);
                assert forall|k: int| 0 <= k < ds.len() implies s[p + 1 + k] == #[trigger] ds[k] by {
                    assert(s[p + (1 + k)] == t[1 + k]);
                }
                lema_decodifica_numero(s, p, v as int, 'F', ds);
                assert(objeto_decodificado(s[p], s, p + 1) == Ok::<Objeto, Falla>(o));
            },
            Objeto::Bomba(a) => {
                let ds = digitos(a as int);
                assert(t[0] == 'B');
                assert(s[p] == t[0]);
                assert forall|k: int| 0 <= k < ds.len() implies s[p + 1 + k] == #[trigger] ds[k] by {
                    assert(s[p + (1 + k)] == t[1 + k]);
                }
                lema_decodifica_numero(s, p, a as int, 'B', ds);
                assert(objeto_decodificado(s[p], s, p + 1) == Ok::<Objeto, Falla>(o));
            },
            Objeto::BombaTraspaso(a) => {
                let ds = digitos(a as int);
                assert(t[0] == 'S');
                assert(s[p] == t[0]);
                assert forall|k: int| 0 <= k < ds.len() implies s[p + 1 + k] == #[trigger] ds[k] by {
                    assert(s[p + (1 + k)] == t[1 + k]);
                }
                lema_decodifica_numero(s, p, a as int, 'S', ds);
                assert(objeto_decodificado(s[p], s, p + 1) == Ok::<Objeto, Falla>(o));
            },
            Objeto::Roca => {
                assert(s[p] == 'R');
            },
            Objeto::Pared => {
                assert(s[p] == 'W');
            },
            Objeto::Desvio(d) => {
                assert(s[p] == 'D');
                assert(s[p + 1] == letra_direccion(d));
                assert(letra_a_direccion(letra_direccion(d), Direccion::Arriba) == d);
                assert(objeto_decodificado(s[p], s, p + 1) == Ok::<Objeto, Falla>(o));
            },
            Objeto::Vacio => {
                assert(s[p] == '_');
            },
        }
        lema_decodifica_cola(s, f, j + 1, p + tl, fila);
        assert(seq![f[j]] + f.subrange(j + 1, f.len() as int) =~= f.subrange(j, f.len() as int));
    }
}

/// En la posicion `p` de la linea hay la letra `c` seguida de la
/// escritura decimal de `v`, y despues de ella ya no hay digitos: la
/// corrida de digitos que el decodificador lee tras la letra termina
/// con la escritura y vale `v`.
proof fn lema_decodifica_numero(s: Seq<char>, p: int, v: int, c: char, ds: Seq<char>)
    requires
        0 <= v <= i32::MAX,
        ds == digitos(v),
        0 <= p,
        p + 1 + ds.len() <= s.len(),
        s[p] == c,
        forall|k: int| 0 <= k < ds.len() ==> s[p + 1 + k] == #[trigger] ds[k],
        p + 1 + ds.len() == s.len() || !es_digito(s[p + 1 + ds.len()]),
    ensures
        fin_digitos(s, p + 1) == p + 1 + ds.len(),
        valor_entero(s, p + 1, 1) == v,
        valor_entero(s, p + 1, 0) == v,
{
    lema_digitos_correctos(v);
    assert forall|k: int| p + 1 <= k < p + 1 + ds.len() implies es_digito(#[trigger] s[k]) by {
        assert(s[k] == s[p + 1 + (k - p - 1)]);
        assert(s[p + 1 + (k - p - 1)] == ds[k - p - 1]);
        assert(es_digito(ds[k - p - 1]));
    }
    lema_fin_digitos_en(s, p + 1, p + 1 + ds.len());
    assert(s.subrange(p + 1, p + 1 + ds.len()) =~= ds);
}

/// Decodificar la linea codificada de una fila devuelve exactamente la
/// fila.
proof fn lema_fila_inversa(f: Seq<Celda>, fila: int)
    requires
        0 <= fila <= usize::MAX,
        forall|i: int|
            0 <= i < f.len() ==> {
                let celda = #[trigger] f[i];
                &&& celda.x == i
                &&& celda.y == fila
                &&& objeto_valido(celda.objeto)
            },
    ensures
        fila_decodificada(
            sin_espacios(fila_codificada(f, f.len() as int)),
            0,
            0,
            fila,
        ) == Ok::<Seq<Celda>, Falla>(f),
{
    lema_linea_sin_espacios(f, f.len() as int);
    assert(f.subrange(0, f.len() as int) =~= f);
    let s = cola_de_tokens(f, 0);
    assert(s.subrange(0, s.len() as int) =~= s);
    lema_decodifica_cola(s, f, 0, 0, fila);
}

/// Decodificar las primeras `n` lineas codificadas de una grilla
/// devuelve sus primeras `n` filas.
proof fn lema_filas_inversa(g: Seq<Seq<Celda>>, n: int)
    requires
        0 <= n <= g.len(),
        g.len() <= usize::MAX,
        forall|y: int, x: int|
            0 <= y < g.len() && 0 <= x < g[y].len() ==> {
                let celda = #[trigger] g[y][x];
                &&& celda.x == x
                &&& celda.y == y
                &&& objeto_valido(celda.objeto)
            },
    ensures
        filas_decodificadas(lineas_codificadas(g), n) == Ok::<Seq<Seq<Celda>>, Falla>(
            g.subrange(0, n),
        ),
    decreases n,
{
    if n <= 0 {
        assert(g.subrange(0, 0) =~= Seq::<Seq<Celda>>::empty());
    } else {
        lema_filas_inversa(g, n - 1);
        let f = g[n - 1];
        assert(forall|x: int|
            0 <= x < f.len() ==> (#[trigger] f[x]).x == x && f[x].y == n - 1 && objeto_valido(
                f[x].objeto,
            ));
        lema_fila_inversa(f, n - 1);
        assert(lineas_codificadas(g)[n - 1] == fila_codificada(f, f.len() as int));
        assert(g.subrange(0, n - 1).push(f) =~= g.subrange(0, n));
    }
}

/// La codificacion y la decodificacion son inversas: decodificar las
/// lineas con las que se escribe un laberinto bien formado reconstruye
/// exactamente su grilla.
pub proof fn lema_codificacion_inversa(lab: Laberinto)
    requires
        lab.bien_formado(),
    ensures
        laberinto_decodificado(lineas_codificadas(lab.vista())) == Ok::<Seq<Seq<Celda>>, Falla>(
            lab.vista(),
        ),
{
    let g = lab.vista();
    lema_filas_inversa(g, g.len() as int);
    assert(g.subrange(0, g.len() as int) =~= g);
    assert(forall|y: int|
        0 <= y < g.len() ==> (#[trigger] g[y]).len() == lineas_codificadas(g).len());
}

} // verus!
