use vstd::prelude::*;

use crate::conteo::lema_num_bombas_actualizada;
use crate::conteo::num_bombas;
use crate::explosion::celda_danada;
use crate::explosion::celda_vaciada;
use crate::explosion::con_bombas_acotadas;
use crate::explosion::detonacion;
use crate::explosion::forma_valida;
use crate::explosion::marcada;
use crate::explosion::marcas_iniciales;
use crate::explosion::propagar_rayo;
use crate::falla::Falla;
use crate::model::celda::Celda;
use crate::model::direccion::Direccion;
use crate::model::laberinto::Laberinto;
use crate::model::objeto::Objeto;
use crate::model::objeto::danar;
use crate::model::objeto::es_bomba;
use crate::model::objeto::evoluciona;

verus! {

/// Un paso unitario sobre uno solo de los dos ejes.
pub open spec fn direccion_valida(dx: i32, dy: i32) -> bool {
    ||| (dx == 1 && dy == 0)
    ||| (dx == -1 && dy == 0)
    ||| (dx == 0 && dy == 1)
    ||| (dx == 0 && dy == -1)
}

/// La grilla de marcadores de una explosion: cuadrada, del tamano del
/// laberinto.
pub open spec fn marcadores_validos(m: Seq<Vec<bool>>, tam: int) -> bool {
    &&& m.len() == tam
    &&& forall|y: int| 0 <= y < tam ==> (#[trigger] m[y])@.len() == tam
}

/// Las filas de la grilla de marcadores como sucesiones.
pub open spec fn vista_de_marcas(m: Seq<Vec<bool>>) -> Seq<Seq<bool>> {
    Seq::new(m.len(), |y: int| m[y]@)
}

/// Hay una pared en la celda vecina a `(x, y)` segun `(dx, dy)`.
pub open spec fn pared_adyacente(lab: Laberinto, x: int, y: int, dx: int, dy: int) -> bool {
    &&& 0 <= x + dx < lab.tamano
    &&& 0 <= y + dy < lab.tamano
    &&& lab.objeto_en(x + dx, y + dy) == Objeto::Pared
}

/// Relacion `evoluciona` celda por celda entre dos estados de la grilla:
/// mismas dimensiones, mismas coordenadas y objetos que solo cambian
/// como una detonacion lo permite.
pub open spec fn evoluciona_grid(a: Seq<Seq<Celda>>, b: Seq<Seq<Celda>>) -> bool {
    &&& b.len() == a.len()
    &&& forall|y: int| 0 <= y < a.len() ==> (#[trigger] b[y]).len() == a[y].len()
    &&& forall|y: int, x: int|
        0 <= y < a.len() && 0 <= x < a[y].len() ==> {
            let antes = a[y][x];
            let despues = #[trigger] b[y][x];
            &&& despues.x == antes.x
            &&& despues.y == antes.y
            &&& evoluciona(antes.objeto, despues.objeto)
        }
}

/// `evoluciona` es reflexiva sobre los objetos, asi que tambien sobre la
/// grilla entera.
pub proof fn lema_evoluciona_reflexiva(a: Seq<Seq<Celda>>)
    ensures
        evoluciona_grid(a, a),
{
}

/// `evoluciona` es transitiva sobre un objeto.
pub proof fn lema_evoluciona_objeto_transitiva(o1: Objeto, o2: Objeto, o3: Objeto)
    requires
        evoluciona(o1, o2),
        evoluciona(o2, o3),
    ensures
        evoluciona(o1, o3),
{
}

/// `evoluciona` es transitiva sobre la grilla entera.
pub proof fn lema_evoluciona_transitiva(a: Seq<Seq<Celda>>, b: Seq<Seq<Celda>>, c: Seq<Seq<Celda>>)
    requires
        evoluciona_grid(a, b),
        evoluciona_grid(b, c),
    ensures
        evoluciona_grid(a, c),
{
    assert forall|y: int, x: int| 0 <= y < a.len() && 0 <= x < a[y].len() implies {
        let antes = a[y][x];
        let despues = #[trigger] c[y][x];
        &&& despues.x == antes.x
        &&& despues.y == antes.y
        &&& evoluciona(antes.objeto, despues.objeto)
    } by {
        assert(b[y].len() == a[y].len());
        lema_evoluciona_objeto_transitiva(a[y][x].objeto, b[y][x].objeto, c[y][x].objeto);
    }
}

/// Si la grilla `b` evoluciono desde `a`, y una celda de `b` cambia de
/// un modo que `evoluciona` admite, la grilla resultante tambien
/// evoluciono desde `a`.
pub proof fn lema_evoluciona_actualizacion(
    a: Seq<Seq<Celda>>,
    b: Seq<Seq<Celda>>,
    x: int,
    y: int,
    c: Celda,
)
    requires
        evoluciona_grid(a, b),
        0 <= y < b.len(),
        0 <= x < b[y].len(),
        c.x == b[y][x].x,
        c.y == b[y][x].y,
        evoluciona(b[y][x].objeto, c.objeto),
    ensures
        evoluciona_grid(a, b.update(y, b[y].update(x, c))),
{
    let b2 = b.update(y, b[y].update(x, c));
    assert forall|yy: int, xx: int| 0 <= yy < a.len() && 0 <= xx < a[yy].len() implies {
        let antes = a[yy][xx];
        let despues = #[trigger] b2[yy][xx];
        &&& despues.x == antes.x
        &&& despues.y == antes.y
        &&& evoluciona(antes.objeto, despues.objeto)
    } by {
        assert(b[yy].len() == a[yy].len());
        if yy == y && xx == x {
            lema_evoluciona_objeto_transitiva(a[yy][xx].objeto, b[yy][xx].objeto, c.objeto);
        } else {
            assert(b2[yy][xx] == b[yy][xx]);
        }
    }
}

/// Aplica un punto de dano a la celda: un enemigo pierde una vida y, si
/// no conserva ninguna, la celda queda vacia; todo otro objeto queda
/// igual. Las coordenadas de la celda no cambian.
pub fn quitar_vida_enemigo(actual: &mut Celda)
    ensures
        final(actual).objeto == danar(old(actual).objeto),
        final(actual).x == old(actual).x,
        final(actual).y == old(actual).y,
{
    if let Objeto::Enemigo(vidas) = actual.objeto {
        if vidas <= 1 {
            actual.objeto = Objeto::Vacio;
        } else {
            actual.objeto = Objeto::Enemigo(vidas - 1);
        }
    }
}

/// Si la celda contiene un desvio, devuelve su desplazamiento `(dx, dy)`;
/// si no, `None`.
pub fn obtener_direccion_del_desvio(celda: &Celda) -> (r: Option<(i32, i32)>)
    ensures
        r == (match celda.objeto {
            Objeto::Desvio(d) => Some(d.desplazamiento()),
            _ => None::<(i32, i32)>,
        }),
{
    if let Objeto::Desvio(direccion) = &celda.objeto {
        match direccion {
            Direccion::Izquierda => Some((-1, 0)),
            Direccion::Derecha => Some((1, 0)),
            Direccion::Arriba => Some((0, -1)),
            Direccion::Abajo => Some((0, 1)),
        }
    } else {
        None
    }
}

/// Avanza una coordenada un paso `delta`; devuelve `None` si el
/// resultado queda fuera de `[0, tope)`.
fn avanzar(pos: usize, delta: i32, tope: usize) -> (r: Option<usize>)
    requires
        pos < tope,
        -1 <= delta <= 1,
    ensures
        match r {
            Some(p) => p == pos + delta && p < tope,
            None => pos + delta < 0 || pos + delta >= tope,
        },
{
    if delta < 0 {
        if pos == 0 {
            None
        } else {
            Some(pos - 1)
        }
    } else if delta > 0 {
        if pos + 1 < tope {
            Some(pos + 1)
        } else {
            None
        }
    } else {
        Some(pos)
    }
}

/// Referencia a la celda `(x, y)` del laberinto.
pub(crate) fn celda_en<'a>(laberinto: &'a Laberinto, x: usize, y: usize) -> (r: &'a Celda)
    requires
        laberinto.bien_formado(),
        x < laberinto.tamano,
        y < laberinto.tamano,
    ensures
        *r == laberinto.vista()[y as int][x as int],
{
    proof {
        assert(laberinto.grid@[y as int]@ == laberinto.vista()[y as int]);
    }
    &laberinto.grid[y][x]
}

/// Lee el marcador de la posicion `(x, y)`.
fn esta_marcado(visitado: &Vec<Vec<bool>>, x: usize, y: usize) -> (r: bool)
    requires
        y < visitado@.len(),
        x < visitado@[y as int]@.len(),
    ensures
        r == visitado@[y as int]@[x as int],
{
    visitado[y][x]
}

/// Pone en verdadero el marcador de la posicion `(x, y)`.
fn marcar(visitado: &mut Vec<Vec<bool>>, x: usize, y: usize)
    requires
        y < old(visitado)@.len(),
        x < old(visitado)@[y as int]@.len(),
    ensures
        final(visitado)@.len() == old(visitado)@.len(),
        forall|yy: int|
            0 <= yy < old(visitado)@.len() ==> (#[trigger] final(visitado)@[yy])@.len() == old(
                visitado,
            )@[yy]@.len(),
        forall|yy: int, xx: int|
            0 <= yy < old(visitado)@.len() && 0 <= xx < old(visitado)@[yy]@.len() && !(yy == y && xx
                == x) ==> (#[trigger] final(visitado)@[yy]@[xx]) == old(visitado)@[yy]@[xx],
        final(visitado)@[y as int]@[x as int],
{
    let fila: &mut Vec<bool> = &mut visitado[y];
    fila.set(x, true);
}

/// Aplica un punto de dano a la celda `(x, y)` del laberinto, sin tocar
/// nada mas. La cantidad de bombas no cambia: el dano solo afecta
/// enemigos.
fn danar_celda(laberinto: &mut Laberinto, x: usize, y: usize)
    requires
        old(laberinto).bien_formado(),
        x < old(laberinto).tamano,
        y < old(laberinto).tamano,
    ensures
        final(laberinto).bien_formado(),
        final(laberinto).tamano == old(laberinto).tamano,
        final(laberinto).vista() == old(laberinto).vista().update(
            y as int,
            old(laberinto).vista()[y as int].update(x as int, (Celda {
                objeto: danar(old(laberinto).objeto_en(x as int, y as int)),
                x: x,
                y: y,
            })),
        ),
        num_bombas(final(laberinto).vista()) == num_bombas(old(laberinto).vista()),
{
    proof {
        assert(laberinto.grid@[y as int]@ == laberinto.vista()[y as int]);
    }
    let fila: &mut Vec<Celda> = &mut laberinto.grid[y];
    let celda: &mut Celda = &mut fila[x];
    quitar_vida_enemigo(celda);
    proof {
        let v0 = old(laberinto).vista();
        let c = Celda { objeto: danar(v0[y as int][x as int].objeto), x: x, y: y };
        assert(laberinto.vista() =~~= v0.update(y as int, v0[y as int].update(x as int, c)));
        lema_num_bombas_actualizada(v0, x as int, y as int, c);
        assert(es_bomba(c.objeto) == es_bomba(v0[y as int][x as int].objeto));
    }
}

/// Grilla de marcadores de `tam` x `tam`, toda en falso.
fn crear_marcadores(tam: usize) -> (r: Vec<Vec<bool>>)
    ensures
        marcadores_validos(r@, tam as int),
        forall|y: int, x: int| 0 <= y < tam && 0 <= x < tam ==> !(#[trigger] r@[y]@[x]),
{
    let mut r: Vec<Vec<bool>> = Vec::new();
    let mut y: usize = 0;
    while y < tam
        invariant
            y <= tam,
            r@.len() == y,
            forall|yy: int| 0 <= yy < y ==> (#[trigger] r@[yy])@.len() == tam,
            forall|yy: int, xx: int| 0 <= yy < y && 0 <= xx < tam ==> !(#[trigger] r@[yy]@[xx]),
        decreases tam - y,
    {
        let mut fila: Vec<bool> = Vec::new();
        let mut x: usize = 0;
        while x < tam
            invariant
                x <= tam,
                fila@.len() == x,
                forall|xx: int| 0 <= xx < x ==> !(#[trigger] fila@[xx]),
            decreases tam - x,
        {
            fila.push(false);
            x = x + 1;
        }
        r.push(fila);
        y = y + 1;
    }
    r
}

/// Lanza un rayo desde `(x, y)` en la direccion `(dx0, dy0)`, de hasta
/// `alcance` pasos, y deja el laberinto y los marcadores exactamente en
/// el estado que describe `propagar_rayo`. El rayo dana los enemigos
/// que alcanza, se detiene ante paredes (y ante rocas si la bomba no es
/// de traspaso), se dobla en los desvios y detona en cadena las bombas
/// que toca.
///
/// Una pared a un paso del origen detiene el rayo de inmediato, sea o no
/// de traspaso la bomba: en ese caso el laberinto no cambia en absoluto.
#[verifier::rlimit(60)]
pub fn lanzar_rayo(
    laberinto: &mut Laberinto,
    visitado: &mut Vec<Vec<bool>>,
    x: usize,
    y: usize,
    dx0: i32,
    dy0: i32,
    alcance: i32,
    traspaso: bool,
)
    requires
        old(laberinto).bien_formado(),
        x < old(laberinto).tamano,
        y < old(laberinto).tamano,
        direccion_valida(dx0, dy0),
        marcadores_validos(old(visitado)@, old(laberinto).tamano as int),
    ensures
        final(laberinto).bien_formado(),
        final(laberinto).tamano == old(laberinto).tamano,
        marcadores_validos(final(visitado)@, old(laberinto).tamano as int),
        evoluciona_grid(old(laberinto).vista(), final(laberinto).vista()),
        num_bombas(final(laberinto).vista()) <= num_bombas(old(laberinto).vista()),
        propagar_rayo(
            old(laberinto).vista(),
            vista_de_marcas(old(visitado)@),
            old(laberinto).tamano as int,
            x as int,
            y as int,
            dx0 as int,
            dy0 as int,
            alcance as int,
            traspaso,
        ) == (final(laberinto).vista(), vista_de_marcas(final(visitado)@)),
        pared_adyacente(*old(laberinto), x as int, y as int, dx0 as int, dy0 as int)
            ==> *final(laberinto) == *old(laberinto),
        alcance <= 0 ==> *final(laberinto) == *old(laberinto),
    decreases num_bombas(laberinto.vista()), 0int,
{
    let ghost lab0 = *laberinto;
    let ghost premisa_pared = pared_adyacente(lab0, x as int, y as int, dx0 as int, dy0 as int);
    let ghost vista0 = lab0.vista();
    let ghost marcas0 = vista_de_marcas(old(visitado)@);
    let tam: usize = laberinto.tamano;
    let mut cx: usize = x;
    let mut cy: usize = y;
    let mut dx: i32 = dx0;
    let mut dy: i32 = dy0;
    let mut n: i32 = 0;
    proof {
        lema_evoluciona_reflexiva(lab0.vista());
    }
    while n < alcance
        invariant_except_break
            laberinto.bien_formado(),
            laberinto.tamano == tam,
            tam == lab0.tamano,
            lab0 == *old(laberinto),
            lab0.bien_formado(),
            premisa_pared == pared_adyacente(lab0, x as int, y as int, dx0 as int, dy0 as int),
            vista0 == lab0.vista(),
            marcas0 == vista_de_marcas(old(visitado)@),
            x < tam,
            y < tam,
            cx < tam,
            cy < tam,
            direccion_valida(dx, dy),
            marcadores_validos(visitado@, tam as int),
            evoluciona_grid(lab0.vista(), laberinto.vista()),
            num_bombas(laberinto.vista()) <= num_bombas(lab0.vista()),
            0 <= n,
            propagar_rayo(
                vista0,
                marcas0,
                tam as int,
                x as int,
                y as int,
                dx0 as int,
                dy0 as int,
                alcance as int,
                traspaso,
            ) == propagar_rayo(
                laberinto.vista(),
                vista_de_marcas(visitado@),
                tam as int,
                cx as int,
                cy as int,
                dx as int,
                dy as int,
                alcance - n,
                traspaso,
            ),
            premisa_pared ==> (n == 0 && cx == x && cy == y && dx == dx0 && dy == dy0
                && *laberinto == lab0),
            alcance <= 0 ==> (*laberinto == lab0 && *visitado == *old(visitado)),
        ensures
            laberinto.bien_formado(),
            laberinto.tamano == tam,
            marcadores_validos(visitado@, tam as int),
            evoluciona_grid(lab0.vista(), laberinto.vista()),
            num_bombas(laberinto.vista()) <= num_bombas(lab0.vista()),
            propagar_rayo(
                vista0,
                marcas0,
                tam as int,
                x as int,
                y as int,
                dx0 as int,
                dy0 as int,
                alcance as int,
                traspaso,
            ) == (laberinto.vista(), vista_de_marcas(visitado@)),
            premisa_pared ==> *laberinto == lab0,
            alcance <= 0 ==> (*laberinto == lab0 && *visitado == *old(visitado)),
        decreases alcance - n,
    {
        let ghost v_paso = laberinto.vista();
        let ghost m_paso = vista_de_marcas(visitado@);
        let ghost cxp = cx as int;
        let ghost cyp = cy as int;
        let ghost dxp = dx as int;
        let ghost dyp = dy as int;
        let ghost pasos: int = alcance - n;
        proof {
            assert(forma_valida(v_paso, tam as int));
        }
        // a. avanzar la posicion un paso
        let sx = avanzar(cx, dx, tam);
        let sy = avanzar(cy, dy, tam);
        if sx.is_none() || sy.is_none() {
            // b. el rayo salio del laberinto
            proof {
                assert(propagar_rayo(
                    v_paso, m_paso, tam as int, cxp, cyp, dxp, dyp, pasos, traspaso,
                ) == (v_paso, m_paso));
            }
            break;
        }
        cx = sx.unwrap();
        cy = sy.unwrap();
        // c. posicion ya resuelta en esta explosion
        if esta_marcado(visitado, cx, cy) {
            proof {
                assert(m_paso[cy as int][cx as int]);
                assert(propagar_rayo(
                    v_paso, m_paso, tam as int, cxp, cyp, dxp, dyp, pasos, traspaso,
                ) == (v_paso, m_paso));
            }
            break;
        }
        // d. desvio: doblar y avanzar de nuevo dentro del mismo paso
        if let Some((ddx, ddy)) = obtener_direccion_del_desvio(celda_en(laberinto, cx, cy)) {
            dx = ddx;
            dy = ddy;
            let sx2 = avanzar(cx, dx, tam);
            let sy2 = avanzar(cy, dy, tam);
            if sx2.is_none() || sy2.is_none() {
                // el desvio empujo el rayo fuera del laberinto
                proof {
                    assert(propagar_rayo(
                        v_paso, m_paso, tam as int, cxp, cyp, dxp, dyp, pasos, traspaso,
                    ) == (v_paso, m_paso));
                }
                break;
            }
            cx = sx2.unwrap();
            cy = sy2.unwrap();
        }
        // e. obstaculo en la celda donde descansa el rayo
        let objeto = celda_en(laberinto, cx, cy).objeto;
        let bloquea = match objeto {
            Objeto::Pared => true,
            Objeto::Roca => !traspaso,
            _ => false,
        };
        if bloquea {
            proof {
                assert(propagar_rayo(
                    v_paso, m_paso, tam as int, cxp, cyp, dxp, dyp, pasos, traspaso,
                ) == (v_paso, m_paso));
            }
            break;
        }
        // f. danar la celda y marcarla, si no estaba resuelta
        let estaba_marcado = esta_marcado(visitado, cx, cy);
        if !estaba_marcado {
            danar_celda(laberinto, cx, cy);
            proof {
                let c = Celda {
                    objeto: danar(v_paso[cy as int][cx as int].objeto),
                    x: cx,
                    y: cy,
                };
                lema_evoluciona_actualizacion(lab0.vista(), v_paso, cx as int, cy as int, c);
            }
            marcar(visitado, cx, cy);
        }
        let ghost g1 = if !estaba_marcado {
            celda_danada(v_paso, cx as int, cy as int)
        } else {
            v_paso
        };
        let ghost m1 = if !estaba_marcado {
            marcada(m_paso, cx as int, cy as int)
        } else {
            m_paso
        };
        proof {
            assert(laberinto.vista() =~~= g1);
            assert(vista_de_marcas(visitado@) =~~= m1);
        }
        // g. reaccion en cadena: una bomba alcanzada detona a su vez
        let objeto_ahora = celda_en(laberinto, cx, cy).objeto;
        let (hay_bomba, alcance_bomba, traspaso_bomba) = match objeto_ahora {
            Objeto::Bomba(a) => (true, a, false),
            Objeto::BombaTraspaso(a) => (true, a, true),
            _ => (false, 0i32, false),
        };
        if hay_bomba {
            let ghost v_antes = laberinto.vista();
            laberinto.poner_objeto(cx, cy, Objeto::Vacio);
            proof {
                let c = Celda { objeto: Objeto::Vacio, x: cx, y: cy };
                lema_num_bombas_actualizada(v_antes, cx as int, cy as int, c);
                lema_evoluciona_actualizacion(lab0.vista(), v_antes, cx as int, cy as int, c);
                assert(laberinto.vista() =~~= celda_vaciada(g1, cx as int, cy as int));
            }
            let ghost v_consumida = laberinto.vista();
            detonar_bomba_recursive(laberinto, cx, cy, alcance_bomba, traspaso_bomba);
            proof {
                lema_evoluciona_transitiva(lab0.vista(), v_consumida, laberinto.vista());
                assert(con_bombas_acotadas(
                    detonacion(
                        v_consumida,
                        tam as int,
                        cx as int,
                        cy as int,
                        alcance_bomba as int,
                        traspaso_bomba,
                    ),
                    v_consumida,
                ) == laberinto.vista());
            }
        }
        // la ecuacion del modelo, un paso mas adelante
        proof {
            assert(propagar_rayo(
                v_paso, m_paso, tam as int, cxp, cyp, dxp, dyp, pasos, traspaso,
            ) == propagar_rayo(
                laberinto.vista(),
                vista_de_marcas(visitado@),
                tam as int,
                cx as int,
                cy as int,
                dx as int,
                dy as int,
                pasos - 1,
                traspaso,
            ));
        }
        n = n + 1;
    }
}

/// Detona la bomba de la celda `(x, y)`: la consume y lanza los cuatro
/// rayos de su explosion, cada uno con el alcance dado, dejando el
/// laberinto exactamente en el estado que describe `detonacion`. Las
/// bombas alcanzadas detonan en cadena, cada una con su propia grilla
/// de marcadores.
pub fn detonar_bomba_recursive(
    laberinto: &mut Laberinto,
    x: usize,
    y: usize,
    alcance: i32,
    es_bomba_de_traspaso: bool,
)
    requires
        old(laberinto).bien_formado(),
        x < old(laberinto).tamano,
        y < old(laberinto).tamano,
        es_bomba(old(laberinto).objeto_en(x as int, y as int)) || old(laberinto).objeto_en(
            x as int,
            y as int,
        ) == Objeto::Vacio,
    ensures
        final(laberinto).bien_formado(),
        final(laberinto).tamano == old(laberinto).tamano,
        final(laberinto).objeto_en(x as int, y as int) == Objeto::Vacio,
        evoluciona_grid(old(laberinto).vista(), final(laberinto).vista()),
        num_bombas(final(laberinto).vista()) <= num_bombas(old(laberinto).vista()),
        final(laberinto).vista() == detonacion(
            old(laberinto).vista(),
            old(laberinto).tamano as int,
            x as int,
            y as int,
            alcance as int,
            es_bomba_de_traspaso,
        ),
        alcance <= 0 ==> final(laberinto).vista() == old(laberinto).vista().update(
            y as int,
            old(laberinto).vista()[y as int].update(x as int, (Celda {
                objeto: Objeto::Vacio,
                x: x,
                y: y,
            })),
        ),
    decreases num_bombas(laberinto.vista()), 1int,
{
    let ghost v0 = laberinto.vista();
    let ghost tam_i = laberinto.tamano as int;
    // 1. la bomba se consume antes de calcular su explosion
    laberinto.poner_objeto(x, y, Objeto::Vacio);
    proof {
        let c = Celda { objeto: Objeto::Vacio, x: x, y: y };
        lema_num_bombas_actualizada(v0, x as int, y as int, c);
        lema_evoluciona_reflexiva(v0);
        lema_evoluciona_actualizacion(v0, v0, x as int, y as int, c);
        assert(laberinto.vista() =~~= celda_vaciada(v0, x as int, y as int));
    }
    let ghost g0 = laberinto.vista();
    // 2. una grilla de marcadores propia de esta explosion
    let tam: usize = laberinto.tamano;
    let mut visitado = crear_marcadores(tam);
    marcar(&mut visitado, x, y);
    proof {
        assert(vista_de_marcas(visitado@) =~~= marcas_iniciales(tam_i, x as int, y as int));
    }
    // 3. los cuatro rayos comparten los marcadores de esta explosion
    let ghost m0 = vista_de_marcas(visitado@);
    lanzar_rayo(laberinto, &mut visitado, x, y, 1, 0, alcance, es_bomba_de_traspaso);
    proof {
        lema_evoluciona_transitiva(v0, g0, laberinto.vista());
        assert(con_bombas_acotadas(
            propagar_rayo(g0, m0, tam_i, x as int, y as int, 1, 0, alcance as int,
                es_bomba_de_traspaso).0,
            g0,
        ) == laberinto.vista());
    }
    let ghost g1 = laberinto.vista();
    let ghost m1 = vista_de_marcas(visitado@);
    lanzar_rayo(laberinto, &mut visitado, x, y, -1, 0, alcance, es_bomba_de_traspaso);
    proof {
        lema_evoluciona_transitiva(v0, g1, laberinto.vista());
        assert(con_bombas_acotadas(
            propagar_rayo(g1, m1, tam_i, x as int, y as int, -1, 0, alcance as int,
                es_bomba_de_traspaso).0,
            g1,
        ) == laberinto.vista());
    }
    let ghost g2 = laberinto.vista();
    let ghost m2 = vista_de_marcas(visitado@);
    lanzar_rayo(laberinto, &mut visitado, x, y, 0, 1, alcance, es_bomba_de_traspaso);
    proof {
        lema_evoluciona_transitiva(v0, g2, laberinto.vista());
        assert(con_bombas_acotadas(
            propagar_rayo(g2, m2, tam_i, x as int, y as int, 0, 1, alcance as int,
                es_bomba_de_traspaso).0,
            g2,
        ) == laberinto.vista());
    }
    let ghost g3 = laberinto.vista();
    let ghost m3 = vista_de_marcas(visitado@);
    lanzar_rayo(laberinto, &mut visitado, x, y, 0, -1, alcance, es_bomba_de_traspaso);
    proof {
        lema_evoluciona_transitiva(v0, g3, laberinto.vista());
        assert(con_bombas_acotadas(
            propagar_rayo(g3, m3, tam_i, x as int, y as int, 0, -1, alcance as int,
                es_bomba_de_traspaso).0,
            g3,
        ) == laberinto.vista());
        assert(laberinto.vista() == detonacion(v0, tam_i, x as int, y as int, alcance as int,
            es_bomba_de_traspaso));
    }
}

/// Detona lo que haya en la celda `(x, y)` del laberinto.
///
/// Si las coordenadas quedan fuera del laberinto, devuelve
/// `Falla::FueraDeLimites` y el laberinto no cambia. Si la celda no
/// contiene una bomba, no pasa nada: el laberinto queda identico y la
/// operacion es un exito trivial. Si contiene una bomba, esta se consume
/// (la celda queda vacia pase lo que pase con el resto) y su explosion
/// se propaga en las cuatro direcciones, con reacciones en cadena.
pub fn detonar_bomba(laberinto: &mut Laberinto, x: usize, y: usize) -> (r: Result<(), Falla>)
    requires
        old(laberinto).bien_formado(),
    ensures
        final(laberinto).bien_formado(),
        final(laberinto).tamano == old(laberinto).tamano,
        evoluciona_grid(old(laberinto).vista(), final(laberinto).vista()),
        num_bombas(final(laberinto).vista()) <= num_bombas(old(laberinto).vista()),
        (x >= old(laberinto).tamano || y >= old(laberinto).tamano) ==> (r == Err::<(), Falla>(
            Falla::FueraDeLimites,
        ) && *final(laberinto) == *old(laberinto)),
        (x < old(laberinto).tamano && y < old(laberinto).tamano) ==> r == Ok::<(), Falla>(()),
        (x < old(laberinto).tamano && y < old(laberinto).tamano && !es_bomba(
            old(laberinto).objeto_en(x as int, y as int),
        )) ==> *final(laberinto) == *old(laberinto),
        (x < old(laberinto).tamano && y < old(laberinto).tamano && es_bomba(
            old(laberinto).objeto_en(x as int, y as int),
        )) ==> final(laberinto).objeto_en(x as int, y as int) == Objeto::Vacio,
        (x < old(laberinto).tamano && y < old(laberinto).tamano) ==> (old(laberinto).objeto_en(
            x as int,
            y as int,
        ) matches Objeto::Bomba(a) ==> final(laberinto).vista() == detonacion(
            old(laberinto).vista(),
            old(laberinto).tamano as int,
            x as int,
            y as int,
            a as int,
            false,
        )),
        (x < old(laberinto).tamano && y < old(laberinto).tamano) ==> (old(laberinto).objeto_en(
            x as int,
            y as int,
        ) matches Objeto::BombaTraspaso(a) ==> final(laberinto).vista() == detonacion(
            old(laberinto).vista(),
            old(laberinto).tamano as int,
            x as int,
            y as int,
            a as int,
            true,
        )),
        (x < old(laberinto).tamano && y < old(laberinto).tamano && (old(laberinto).objeto_en(
            x as int,
            y as int,
        ) == Objeto::Bomba(0) || old(laberinto).objeto_en(x as int, y as int)
            == Objeto::BombaTraspaso(0))) ==> final(laberinto).vista() == old(
            laberinto,
        ).vista().update(
            y as int,
            old(laberinto).vista()[y as int].update(x as int, (Celda {
                objeto: Objeto::Vacio,
                x: x,
                y: y,
            })),
        ),
{
    if x >= laberinto.tamano || y >= laberinto.tamano {
        return Err(Falla::FueraDeLimites);
    }
    let objeto = celda_en(laberinto, x, y).objeto;
    match objeto {
        Objeto::Bomba(alcance) => {
            detonar_bomba_recursive(laberinto, x, y, alcance, false);
        },
        Objeto::BombaTraspaso(alcance) => {
            detonar_bomba_recursive(laberinto, x, y, alcance, true);
        },
        _ => {
            proof {
                lema_evoluciona_reflexiva(old(laberinto).vista());
            }
        },
    }
    Ok(())
}

} // verus!
