# lnmai

The verified core of the LnMai host, a simulator front end that drives a
judgment core through a small bridge.

- `src/` is the library, checked with Verus:
  - `protocol`: the input and judgment kinds shared with the judgment core,
    and the button and touch-area counts;
  - `areas`: the names of the 33 touch areas and the lookup from a name to
    its area;
  - `text`: the character scanning the readers use (finding, splitting,
    lines, words, trimming, decimal numbers);
  - `obj`: reading the judge-area mesh from OBJ text;
  - `scene`: reading from the Unity scene which mesh group and turn each
    touch area uses;
  - `layout`: joining the two into the fan triangles each area is drawn
    with;
  - `host`: the run mode from the command line and the input overlay text.
- `app/` is the program: the window, keyboard, drawing, files, the mesh
  export, and the floating-point geometry and clock.
- `tests/` runs the library on concrete inputs.
